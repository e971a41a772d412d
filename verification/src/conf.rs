//! Where configuration comes from, and the configuration commands that need
//! no file access to decide what they do.

use vstd::prelude::*;
use crate::config::{config_is_default, with_hymofs, Config, HymoFsConfig};
use crate::path::{parent, push};
use crate::path_exec::{parent_exec, push_exec};
use crate::recovery::names;
use crate::text::{chars_of, string_from_chars, trim, trim_chars};

verus! {

broadcast use vstd::string::group_string_axioms;

/// The configuration file read when no other is given.
pub open spec fn config_file_spec() -> Seq<char> {
    "/data/adb/hybrid-mount/config.toml"@
}

pub fn config_file() -> (r: &'static str)
    ensures
        r@ == config_file_spec(),
{
    "/data/adb/hybrid-mount/config.toml"
}

/// The message of `gen-config` when the output exists and `--force` is not given.
pub open spec fn exists_message(output: Seq<char>) -> Seq<char> {
    "Config already exists at "@ + output + ". Use --force to overwrite."@
}

/// `gen-config`: refuses to overwrite an existing file without `force`;
/// otherwise gives the default configuration to write.
pub fn handle_gen_config(output: &str, output_exists: bool, force: bool) -> (r: Result<Config, String>)
    ensures
        r is Err <==> (output_exists && !force),
        r matches Err(m) ==> m@ == exists_message(output@),
        r matches Ok(c) ==> config_is_default(c),
{
    if output_exists && !force {
        let mut m = String::new();
        m.append("Config already exists at ");
        m.append(output);
        m.append(". Use --force to overwrite.");
        assert(m@ =~= exists_message(output@));
        return Err(m);
    }
    Ok(Config::default())
}

/// Where the effective configuration is read from.
#[derive(Debug, PartialEq, Eq)]
pub enum ConfigSource {
    /// The file given on the command line (a missing one reads as the defaults).
    Custom(String),
    /// The default configuration file.
    DefaultFile,
    /// No file: the built-in defaults.
    BuiltinDefault,
}

/// Picks the configuration source: the given path, else the default file if it exists,
/// else the built-in defaults.
pub fn load_config(custom: Option<&str>, default_exists: bool) -> (r: ConfigSource)
    ensures
        match custom {
            Some(p) => r matches ConfigSource::Custom(q) && q@ == p@,
            None => r == (if default_exists {
                ConfigSource::DefaultFile
            } else {
                ConfigSource::BuiltinDefault
            }),
        },
{
    match custom {
        Some(p) => ConfigSource::Custom(p.to_owned()),
        None => {
            if default_exists {
                ConfigSource::DefaultFile
            } else {
                ConfigSource::BuiltinDefault
            }
        },
    }
}

/// Where the main configuration's content comes from when it is loaded.
#[derive(Debug, PartialEq, Eq, Structural, Clone, Copy)]
pub enum MainConfigSource {
    /// Read and parse the file.
    ReadFile,
    /// The file is missing and that is allowed: use the defaults.
    Defaults,
    /// The file is missing and must exist: reading it fails.
    Missing,
}

pub fn main_config_source(main_exists: bool, allow_missing_main: bool) -> (r: MainConfigSource)
    ensures
        r == (if main_exists {
            MainConfigSource::ReadFile
        } else if allow_missing_main {
            MainConfigSource::Defaults
        } else {
            MainConfigSource::Missing
        }),
{
    if main_exists {
        MainConfigSource::ReadFile
    } else if allow_missing_main {
        MainConfigSource::Defaults
    } else {
        MainConfigSource::Missing
    }
}

/// The HymoFS sidecar file next to a main configuration file.
pub open spec fn sidecar_path(main: Seq<char>) -> Seq<char> {
    let dir = match parent(main) {
        Some(p) => p,
        None => seq!['.'],
    };
    push(dir, "hymofs.toml"@)
}

/// `hymofs.toml` in the main configuration file's directory (`.` when it has none).
pub fn hymofs_sidecar_path_for(main_path: &str) -> (r: String)
    ensures
        r@ == sidecar_path(main_path@),
{
    let m = chars_of(main_path);
    let dir = match parent_exec(&m) {
        Some(p) => p,
        None => {
            let mut v = Vec::new();
            v.push('.');
            assert(v@ =~= seq!['.']);
            v
        },
    };
    let f = chars_of("hymofs.toml");
    let r = push_exec(&dir, &f);
    string_from_chars(&r)
}

/// The top-level keys of a TOML document, or `None` when it does not parse
/// (`toml::from_str::<toml::Value>`).
pub uninterp spec fn toml_top_keys(content: Seq<char>) -> Option<Set<Seq<char>>>;

/// `toml::from_str::<toml::Value>`, keeping only the names of the top-level
/// table's keys. The stated contract: `None` exactly when the text does not
/// parse, and otherwise the key names, each once. Which texts parse is left
/// to the name `toml_top_keys`.
#[verifier::external_body]
fn toml_keys(content: &str) -> (r: Option<Vec<String>>)
    ensures
        r is None <==> toml_top_keys(content@) is None,
        r matches Some(v) ==> names(v@).to_set() == toml_top_keys(content@)->0,
        r matches Some(v) ==> names(v@).no_duplicates(),
{
    match toml::from_str::<toml::Value>(content) {
        Ok(toml::Value::Table(t)) => Some(t.keys().cloned().collect()),
        Ok(_) => Some(Vec::new()),
        Err(_) => None,
    }
}

/// How a HymoFS configuration file is laid out.
#[derive(Debug, PartialEq, Eq, Structural, Clone, Copy)]
pub enum HymofsLayout {
    /// Only whitespace: the defaults.
    Empty,
    /// The settings sit under a `[hymofs]` table.
    Wrapped,
    /// The settings are at the top level.
    Plain,
}

/// The HymoFS file could not be parsed as TOML.
#[derive(Debug, PartialEq, Eq, Structural, Clone, Copy)]
pub enum HymofsLayoutError {
    Parse,
}

/// The layout given the top-level keys of the parsed file (`None`: it did not parse).
pub fn hymofs_layout_from_keys(keys: &Option<Vec<String>>) -> (r: Result<HymofsLayout, HymofsLayoutError>)
    ensures
        r == (match keys {
            None => Err(HymofsLayoutError::Parse),
            Some(v) => Ok(if names(v@).contains("hymofs"@) {
                HymofsLayout::Wrapped
            } else {
                HymofsLayout::Plain
            }),
        }),
{
    match keys {
        None => Err(HymofsLayoutError::Parse),
        Some(v) => {
            if contains_name(v, "hymofs") {
                Ok(HymofsLayout::Wrapped)
            } else {
                Ok(HymofsLayout::Plain)
            }
        },
    }
}

/// Whether `s` is among the strings of `v`.
pub fn contains_name(v: &Vec<String>, s: &str) -> (r: bool)
    ensures
        r == names(v@).contains(s@),
{
    let target = chars_of(s);
    let mut i: usize = 0;
    while i < v.len()
        invariant
            i <= v.len(),
            target@ == s@,
            forall|j: int| 0 <= j < i ==> names(v@)[j] != s@,
        decreases v.len() - i,
    {
        let item = chars_of(v[i].as_str());
        if crate::path_exec::chars_eq(&item, &target) {
            assert(names(v@)[i as int] == s@);
            return true;
        }
        i += 1;
    }
    false
}

/// Decides how to read a HymoFS configuration file's content.
pub fn hymofs_config_layout(content: &str) -> (r: Result<HymofsLayout, HymofsLayoutError>)
    ensures
        trim(content@).len() == 0 ==> r == Ok::<HymofsLayout, HymofsLayoutError>(HymofsLayout::Empty),
        trim(content@).len() > 0 ==> r == (match toml_top_keys(content@) {
            None => Err(HymofsLayoutError::Parse),
            Some(keys) => Ok(if keys.contains("hymofs"@) {
                HymofsLayout::Wrapped
            } else {
                HymofsLayout::Plain
            }),
        }),
{
    let cs = chars_of(content);
    let t = trim_chars(&cs);
    if t.len() == 0 {
        return Ok(HymofsLayout::Empty);
    }
    let keys = toml_keys(content);
    let r = hymofs_layout_from_keys(&keys);
    proof {
        if let Some(v) = keys {
            assert(names(v@).to_set().contains("hymofs"@) == names(v@).contains("hymofs"@));
        }
    }
    r
}

/// `lkm set-autoload`.
pub fn handle_lkm_set_autoload(config: &mut Config, enabled: bool)
    ensures
        *final(config) == with_hymofs(*old(config), HymoFsConfig { lkm_autoload: enabled, ..old(config).hymofs }),
{
    config.hymofs.lkm_autoload = enabled;
}

/// `lkm set-kmi`.
pub fn handle_lkm_set_kmi(config: &mut Config, kmi: &str)
    ensures
        final(config).hymofs.lkm_kmi_override@ == kmi@,
        *final(config) == with_hymofs(
            *old(config),
            HymoFsConfig { lkm_kmi_override: final(config).hymofs.lkm_kmi_override, ..old(config).hymofs },
        ),
{
    config.hymofs.lkm_kmi_override = kmi.to_owned();
}

/// `lkm clear-kmi`.
pub fn handle_lkm_clear_kmi(config: &mut Config)
    ensures
        final(config).hymofs.lkm_kmi_override@ == Seq::<char>::empty(),
        *final(config) == with_hymofs(
            *old(config),
            HymoFsConfig { lkm_kmi_override: final(config).hymofs.lkm_kmi_override, ..old(config).hymofs },
        ),
{
    config.hymofs.lkm_kmi_override = String::new();
}

} // verus!
