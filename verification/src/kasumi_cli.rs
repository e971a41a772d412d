//! Changes that the `kasumi` commands make to the configuration.

use vstd::prelude::*;
use crate::config::{
    uname_is_empty, with_kasumi, Config, KasumiConfig, KasumiKstatRuleConfig,
    KasumiMapsRuleConfig, KasumiUnameConfig, MountHideConfig, StatfsSpoofConfig,
};
use crate::path::path_eq;
use crate::path_exec::path_eq_exec;
use crate::text::chars_of;

verus! {

broadcast use vstd::string::group_string_axioms;

/// Why a `kasumi` command refused to change the configuration.
#[derive(Debug, PartialEq, Eq, Structural, Clone, Copy)]
pub enum KasumiCliError {
    /// `uname set` was given no field.
    NoUnameFields,
}

/// The text a refused `kasumi` command reports.
pub open spec fn kasumi_error_message(e: KasumiCliError) -> Seq<char> {
    match e {
        KasumiCliError::NoUnameFields => "No uname fields were provided. Use `kasumi uname clear` to clear spoofing."@,
    }
}

impl KasumiCliError {
    /// The error as text.
    pub fn message(&self) -> (r: String)
        ensures
            r@ == kasumi_error_message(*self),
    {
        match self {
            KasumiCliError::NoUnameFields => {
                "No uname fields were provided. Use `kasumi uname clear` to clear spoofing.".to_owned()
            },
        }
    }
}

/// `uname set` needs at least one field; this is checked before the
/// configuration is read.
pub fn check_uname_fields(
    sysname: Option<&str>,
    nodename: Option<&str>,
    release: Option<&str>,
    version: Option<&str>,
    machine: Option<&str>,
    domainname: Option<&str>,
) -> (r: Result<(), KasumiCliError>)
    ensures
        r is Err <==> (sysname is None && nodename is None && release is None && version is None
            && machine is None && domainname is None),
        r is Err ==> r == Err::<(), KasumiCliError>(KasumiCliError::NoUnameFields),
{
    if sysname.is_none() && nodename.is_none() && release.is_none() && version.is_none()
        && machine.is_none() && domainname.is_none() {
        Err(KasumiCliError::NoUnameFields)
    } else {
        Ok(())
    }
}

/// Copies a string slice into an owned string (`str::to_string`).
pub fn owned(s: &str) -> (r: String)
    ensures
        r@ == s@,
{
    s.to_owned()
}

/// `config` where only the Kasumi section may differ from `old`, and it equals `k`.
pub open spec fn kasumi_now(config: Config, old: Config, k: KasumiConfig) -> bool {
    config == with_kasumi(old, k)
}

pub fn handle_kasumi_set_enabled(config: &mut Config, enabled: bool)
    ensures
        kasumi_now(*final(config), *old(config), KasumiConfig { enabled, ..old(config).kasumi }),
{
    config.kasumi.enabled = enabled;
}

pub fn handle_kasumi_set_hidexattr(config: &mut Config, enabled: bool)
    ensures
        kasumi_now(
            *final(config),
            *old(config),
            KasumiConfig { enable_hidexattr: enabled, ..old(config).kasumi },
        ),
{
    config.kasumi.enable_hidexattr = enabled;
}

pub fn handle_kasumi_set_mirror(config: &mut Config, path_value: &str)
    ensures
        final(config).kasumi.mirror_path@ == path_value@,
        kasumi_now(
            *final(config),
            *old(config),
            KasumiConfig { mirror_path: final(config).kasumi.mirror_path, ..old(config).kasumi },
        ),
{
    config.kasumi.mirror_path = owned(path_value);
}

pub fn handle_kasumi_set_debug(config: &mut Config, enabled: bool)
    ensures
        kasumi_now(
            *final(config),
            *old(config),
            KasumiConfig { enable_kernel_debug: enabled, ..old(config).kasumi },
        ),
{
    config.kasumi.enable_kernel_debug = enabled;
}

pub fn handle_kasumi_set_stealth(config: &mut Config, enabled: bool)
    ensures
        kasumi_now(
            *final(config),
            *old(config),
            KasumiConfig { enable_stealth: enabled, ..old(config).kasumi },
        ),
{
    config.kasumi.enable_stealth = enabled;
}

pub fn handle_kasumi_set_maps_spoof(config: &mut Config, enabled: bool)
    ensures
        kasumi_now(
            *final(config),
            *old(config),
            KasumiConfig { enable_maps_spoof: enabled, ..old(config).kasumi },
        ),
{
    config.kasumi.enable_maps_spoof = enabled;
}

/// Turns mount hiding on or off. Turning it on keeps the old pattern unless a
/// new one is given; turning it off clears the pattern.
pub fn handle_kasumi_set_mount_hide(config: &mut Config, enabled: bool, path_pattern: Option<&str>)
    ensures
        final(config).kasumi.mount_hide.path_pattern@ == (if enabled {
            match path_pattern {
                Some(p) => p@,
                None => old(config).kasumi.mount_hide.path_pattern@,
            }
        } else {
            Seq::<char>::empty()
        }),
        enabled && path_pattern is None ==> final(config).kasumi.mount_hide.path_pattern
            == old(config).kasumi.mount_hide.path_pattern,
        kasumi_now(
            *final(config),
            *old(config),
            KasumiConfig {
                enable_mount_hide: enabled,
                mount_hide: MountHideConfig {
                    enabled,
                    path_pattern: final(config).kasumi.mount_hide.path_pattern,
                },
                ..old(config).kasumi
            },
        ),
{
    config.kasumi.enable_mount_hide = enabled;
    config.kasumi.mount_hide.enabled = enabled;
    if enabled {
        if let Some(p) = path_pattern {
            config.kasumi.mount_hide.path_pattern = owned(p);
        }
    } else {
        config.kasumi.mount_hide.path_pattern = String::new();
    }
}

/// Turns `statfs` spoofing on or off. Turning it on keeps the old path and type
/// unless new ones are given; turning it off clears both.
pub fn handle_kasumi_set_statfs_spoof(
    config: &mut Config,
    enabled: bool,
    path_value: Option<&str>,
    spoof_f_type: Option<u64>,
)
    ensures
        final(config).kasumi.statfs_spoof.path@ == (if enabled {
            match path_value {
                Some(p) => p@,
                None => old(config).kasumi.statfs_spoof.path@,
            }
        } else {
            Seq::<char>::empty()
        }),
        enabled && path_value is None ==> final(config).kasumi.statfs_spoof.path
            == old(config).kasumi.statfs_spoof.path,
        kasumi_now(
            *final(config),
            *old(config),
            KasumiConfig {
                enable_statfs_spoof: enabled,
                statfs_spoof: StatfsSpoofConfig {
                    enabled,
                    path: final(config).kasumi.statfs_spoof.path,
                    spoof_f_type: if enabled {
                        match spoof_f_type {
                            Some(t) => t,
                            None => old(config).kasumi.statfs_spoof.spoof_f_type,
                        }
                    } else {
                        0
                    },
                },
                ..old(config).kasumi
            },
        ),
{
    config.kasumi.enable_statfs_spoof = enabled;
    config.kasumi.statfs_spoof.enabled = enabled;
    if enabled {
        if let Some(p) = path_value {
            config.kasumi.statfs_spoof.path = owned(p);
        }
        if let Some(t) = spoof_f_type {
            config.kasumi.statfs_spoof.spoof_f_type = t;
        }
    } else {
        config.kasumi.statfs_spoof.path = String::new();
        config.kasumi.statfs_spoof.spoof_f_type = 0;
    }
}

/// The new value of one `uname` field: the given text, or the old value.
pub open spec fn field_after(old: String, new: String, given: Option<&str>) -> bool {
    match given {
        Some(v) => new@ == v@,
        None => new == old,
    }
}

/// Sets the given `uname` fields; refuses when none is given, and then changes nothing.
pub fn handle_kasumi_set_uname(
    config: &mut Config,
    sysname: Option<&str>,
    nodename: Option<&str>,
    release: Option<&str>,
    version: Option<&str>,
    machine: Option<&str>,
    domainname: Option<&str>,
) -> (r: Result<(), KasumiCliError>)
    ensures
        r is Err <==> (sysname is None && nodename is None && release is None && version is None
            && machine is None && domainname is None),
        r is Err ==> r == Err::<(), KasumiCliError>(KasumiCliError::NoUnameFields) && *final(config)
            == *old(config),
        r is Ok ==> {
            let u = final(config).kasumi.uname;
            let o = old(config).kasumi.uname;
            &&& field_after(o.sysname, u.sysname, sysname)
            &&& field_after(o.nodename, u.nodename, nodename)
            &&& field_after(o.release, u.release, release)
            &&& field_after(o.version, u.version, version)
            &&& field_after(o.machine, u.machine, machine)
            &&& field_after(o.domainname, u.domainname, domainname)
            &&& kasumi_now(
                *final(config),
                *old(config),
                KasumiConfig { uname: u, ..old(config).kasumi },
            )
        },
{
    if let Err(e) = check_uname_fields(sysname, nodename, release, version, machine, domainname) {
        return Err(e);
    }
    if let Some(v) = sysname {
        config.kasumi.uname.sysname = owned(v);
    }
    if let Some(v) = nodename {
        config.kasumi.uname.nodename = owned(v);
    }
    if let Some(v) = release {
        config.kasumi.uname.release = owned(v);
    }
    if let Some(v) = version {
        config.kasumi.uname.version = owned(v);
    }
    if let Some(v) = machine {
        config.kasumi.uname.machine = owned(v);
    }
    if let Some(v) = domainname {
        config.kasumi.uname.domainname = owned(v);
    }
    Ok(())
}

pub fn handle_kasumi_clear_uname(config: &mut Config)
    ensures
        uname_is_empty(final(config).kasumi.uname),
        kasumi_now(
            *final(config),
            *old(config),
            KasumiConfig { uname: final(config).kasumi.uname, ..old(config).kasumi },
        ),
{
    config.kasumi.uname = KasumiUnameConfig::default();
}

pub fn handle_kasumi_set_cmdline(config: &mut Config, value: &str)
    ensures
        final(config).kasumi.cmdline_value@ == value@,
        kasumi_now(
            *final(config),
            *old(config),
            KasumiConfig { cmdline_value: final(config).kasumi.cmdline_value, ..old(config).kasumi },
        ),
{
    config.kasumi.cmdline_value = owned(value);
}

pub fn handle_kasumi_clear_cmdline(config: &mut Config)
    ensures
        final(config).kasumi.cmdline_value@ == Seq::<char>::empty(),
        kasumi_now(
            *final(config),
            *old(config),
            KasumiConfig { cmdline_value: final(config).kasumi.cmdline_value, ..old(config).kasumi },
        ),
{
    config.kasumi.cmdline_value = String::new();
}

pub fn handle_kasumi_set_hide_uids(config: &mut Config, uids: &[u32])
    ensures
        final(config).kasumi.hide_uids@ == uids@,
        kasumi_now(
            *final(config),
            *old(config),
            KasumiConfig { hide_uids: final(config).kasumi.hide_uids, ..old(config).kasumi },
        ),
{
    let mut v: Vec<u32> = Vec::new();
    let mut i: usize = 0;
    while i < uids.len()
        invariant
            i <= uids.len(),
            v@ == uids@.take(i as int),
        decreases uids.len() - i,
    {
        v.push(uids[i]);
        assert(v@ =~= uids@.take(i + 1));
        i += 1;
    }
    assert(uids@.take(uids.len() as int) =~= uids@);
    config.kasumi.hide_uids = v;
}

pub fn handle_kasumi_clear_hide_uids(config: &mut Config)
    ensures
        final(config).kasumi.hide_uids@ == Seq::<u32>::empty(),
        kasumi_now(
            *final(config),
            *old(config),
            KasumiConfig { hide_uids: final(config).kasumi.hide_uids, ..old(config).kasumi },
        ),
{
    config.kasumi.hide_uids = Vec::new();
}

pub fn handle_kasumi_clear_maps_rules(config: &mut Config)
    ensures
        final(config).kasumi.maps_rules@ == Seq::<KasumiMapsRuleConfig>::empty(),
        kasumi_now(
            *final(config),
            *old(config),
            KasumiConfig { maps_rules: final(config).kasumi.maps_rules, ..old(config).kasumi },
        ),
{
    config.kasumi.maps_rules = Vec::new();
}

/// Removes every kstat rule from the configuration (the kernel keeps its rules
/// until the module is reloaded).
pub fn handle_kasumi_clear_kstat_rules_config(config: &mut Config)
    ensures
        final(config).kasumi.kstat_rules@ == Seq::<KasumiKstatRuleConfig>::empty(),
        kasumi_now(
            *final(config),
            *old(config),
            KasumiConfig { kstat_rules: final(config).kasumi.kstat_rules, ..old(config).kasumi },
        ),
{
    config.kasumi.kstat_rules = Vec::new();
}


pub open spec fn maps_key_matches(r: KasumiMapsRuleConfig, ino: u64, dev: u64) -> bool {
    r.target_ino == ino && r.target_dev == dev
}

/// `i` is the first rule in `s` with the key `(ino, dev)`.
pub open spec fn first_maps_match(s: Seq<KasumiMapsRuleConfig>, ino: u64, dev: u64, i: int) -> bool {
    &&& 0 <= i < s.len()
    &&& maps_key_matches(s[i], ino, dev)
    &&& forall|j: int| 0 <= j < i ==> !maps_key_matches(#[trigger] s[j], ino, dev)
}

/// Replaces the first rule with the same key as `r`, or appends `r` when there is none.
pub open spec fn maps_upsert(s: Seq<KasumiMapsRuleConfig>, r: KasumiMapsRuleConfig) -> Seq<
    KasumiMapsRuleConfig,
> {
    if exists|i: int| first_maps_match(s, r.target_ino, r.target_dev, i) {
        s.update(choose|i: int| first_maps_match(s, r.target_ino, r.target_dev, i), r)
    } else {
        s.push(r)
    }
}

pub open spec fn maps_rule_is(
    r: KasumiMapsRuleConfig,
    target_ino: u64,
    target_dev: u64,
    spoofed_ino: u64,
    spoofed_dev: u64,
    path: Seq<char>,
) -> bool {
    &&& r.target_ino == target_ino
    &&& r.target_dev == target_dev
    &&& r.spoofed_ino == spoofed_ino
    &&& r.spoofed_dev == spoofed_dev
    &&& r.spoofed_pathname@ == path
}

/// No two rules share a key.
pub open spec fn maps_keys_unique(s: Seq<KasumiMapsRuleConfig>) -> bool {
    forall|i: int, j: int|
        #![trigger s[i], s[j]]
        0 <= i < j < s.len() ==> !maps_key_matches(s[i], s[j].target_ino, s[j].target_dev)
}

proof fn lemma_first_maps_unique(s: Seq<KasumiMapsRuleConfig>, ino: u64, dev: u64, i: int, k: int)
    requires
        first_maps_match(s, ino, dev, i),
        first_maps_match(s, ino, dev, k),
    ensures
        i == k,
{
    if i < k {
        assert(!maps_key_matches(s[i], ino, dev));
    } else if k < i {
        assert(!maps_key_matches(s[k], ino, dev));
    }
}

/// Adds a maps rule, replacing the first one with the same target inode and device.
pub fn handle_kasumi_add_maps_rule(
    config: &mut Config,
    target_ino: u64,
    target_dev: u64,
    spoofed_ino: u64,
    spoofed_dev: u64,
    path: &str,
)
    ensures
        exists|r: KasumiMapsRuleConfig|
            maps_rule_is(r, target_ino, target_dev, spoofed_ino, spoofed_dev, path@)
                && final(config).kasumi.maps_rules@ == #[trigger] maps_upsert(
                old(config).kasumi.maps_rules@,
                r,
            ),
        kasumi_now(
            *final(config),
            *old(config),
            KasumiConfig { maps_rules: final(config).kasumi.maps_rules, ..old(config).kasumi },
        ),
{
    let new_rule = KasumiMapsRuleConfig {
        target_ino,
        target_dev,
        spoofed_ino,
        spoofed_dev,
        spoofed_pathname: owned(path),
    };
    let ghost r = new_rule;
    let ghost s = config.kasumi.maps_rules@;
    let mut i: usize = 0;
    let n = config.kasumi.maps_rules.len();
    while i < n
        invariant
            n == s.len(),
            i <= n,
            s == config.kasumi.maps_rules@,
            forall|j: int| 0 <= j < i ==> !maps_key_matches(#[trigger] s[j], target_ino, target_dev),
        ensures
            i <= n,
            s == config.kasumi.maps_rules@,
            forall|j: int| 0 <= j < i ==> !maps_key_matches(#[trigger] s[j], target_ino, target_dev),
            i < n ==> maps_key_matches(s[i as int], target_ino, target_dev),
        decreases n - i,
    {
        let rule = &config.kasumi.maps_rules[i];
        if rule.target_ino == target_ino && rule.target_dev == target_dev {
            break;
        }
        i += 1;
    }
    if i < n {
        assert(first_maps_match(s, target_ino, target_dev, i as int));
        config.kasumi.maps_rules.set(i, new_rule);
        proof {
            assert(r.target_ino == target_ino && r.target_dev == target_dev);
            assert(first_maps_match(s, r.target_ino, r.target_dev, i as int));
            let k = choose|k: int| first_maps_match(s, r.target_ino, r.target_dev, k);
            lemma_first_maps_unique(s, target_ino, target_dev, i as int, k);
            assert(config.kasumi.maps_rules@ == s.update(i as int, r));
        }
        assert(config.kasumi.maps_rules@ == maps_upsert(s, r));
    } else {
        assert(!exists|k: int| first_maps_match(s, target_ino, target_dev, k));
        config.kasumi.maps_rules.push(new_rule);
        assert(config.kasumi.maps_rules@ == maps_upsert(s, r));
    }
}

/// Law: adding the same maps rule twice leaves the rules as adding it once.
pub proof fn lemma_maps_upsert_idempotent(s: Seq<KasumiMapsRuleConfig>, r: KasumiMapsRuleConfig)
    ensures
        maps_upsert(maps_upsert(s, r), r) == maps_upsert(s, r),
{
    let t = maps_upsert(s, r);
    if exists|i: int| first_maps_match(s, r.target_ino, r.target_dev, i) {
        let i = choose|i: int| first_maps_match(s, r.target_ino, r.target_dev, i);
        assert(first_maps_match(t, r.target_ino, r.target_dev, i)) by {
            assert forall|j: int| 0 <= j < i implies !maps_key_matches(#[trigger] t[j], r.target_ino, r.target_dev) by {
                assert(t[j] == s[j]);
            }
        }
        let k = choose|k: int| first_maps_match(t, r.target_ino, r.target_dev, k);
        lemma_first_maps_unique(t, r.target_ino, r.target_dev, i, k);
        assert(t.update(i, r) =~= t);
    } else {
        let i = s.len() as int;
        assert(first_maps_match(t, r.target_ino, r.target_dev, i)) by {
            assert forall|j: int| 0 <= j < i implies !maps_key_matches(#[trigger] t[j], r.target_ino, r.target_dev) by {
                assert(t[j] == s[j]);
                if maps_key_matches(s[j], r.target_ino, r.target_dev) {
                    lemma_some_first_maps_match(s, r.target_ino, r.target_dev, j);
                }
            }
        }
        let k = choose|k: int| first_maps_match(t, r.target_ino, r.target_dev, k);
        lemma_first_maps_unique(t, r.target_ino, r.target_dev, i, k);
        assert(t.update(i, r) =~= t);
    }
}

/// If some rule has the key, a first such rule exists.
proof fn lemma_some_first_maps_match(s: Seq<KasumiMapsRuleConfig>, ino: u64, dev: u64, j: int)
    requires
        0 <= j < s.len(),
        maps_key_matches(s[j], ino, dev),
    ensures
        exists|i: int| first_maps_match(s, ino, dev, i),
    decreases j,
{
    if forall|k: int| 0 <= k < j ==> !maps_key_matches(#[trigger] s[k], ino, dev) {
        assert(first_maps_match(s, ino, dev, j));
    } else {
        let k = choose|k: int| 0 <= k < j && !!maps_key_matches(#[trigger] s[k], ino, dev);
        lemma_some_first_maps_match(s, ino, dev, k);
    }
}

/// Law: adding a maps rule keeps rule keys unique.
pub proof fn lemma_maps_upsert_keeps_keys_unique(s: Seq<KasumiMapsRuleConfig>, r: KasumiMapsRuleConfig)
    requires
        maps_keys_unique(s),
    ensures
        maps_keys_unique(maps_upsert(s, r)),
{
    let t = maps_upsert(s, r);
    if exists|i: int| first_maps_match(s, r.target_ino, r.target_dev, i) {
        let i = choose|i: int| first_maps_match(s, r.target_ino, r.target_dev, i);
        assert forall|a: int, b: int| #![trigger t[a], t[b]] 0 <= a < b < t.len() implies !maps_key_matches(
            t[a],
            t[b].target_ino,
            t[b].target_dev,
        ) by {
            assert(maps_key_matches(s[i], t[i].target_ino, t[i].target_dev));
            if a != i && b != i {
                assert(t[a] == s[a] && t[b] == s[b]);
            } else if a == i {
                assert(t[b] == s[b]);
                assert(!maps_key_matches(s[a], s[b].target_ino, s[b].target_dev));
            } else {
                assert(t[a] == s[a]);
                assert(!maps_key_matches(s[a], s[b].target_ino, s[b].target_dev));
            }
        }
    } else {
        assert forall|a: int, b: int| #![trigger t[a], t[b]] 0 <= a < b < t.len() implies !maps_key_matches(
            t[a],
            t[b].target_ino,
            t[b].target_dev,
        ) by {
            assert(t[a] == s[a]);
            if b == s.len() {
                if maps_key_matches(s[a], r.target_ino, r.target_dev) {
                    lemma_some_first_maps_match(s, r.target_ino, r.target_dev, a);
                }
            } else {
                assert(t[b] == s[b]);
            }
        }
    }
}


/// A kstat rule is keyed by its target inode and its target path (compared as paths).
pub open spec fn kstat_key_matches(r: KasumiKstatRuleConfig, ino: u64, path: Seq<char>) -> bool {
    r.target_ino == ino && path_eq(r.target_pathname@, path)
}

pub open spec fn first_kstat_match(s: Seq<KasumiKstatRuleConfig>, ino: u64, path: Seq<char>, i: int) -> bool {
    &&& 0 <= i < s.len()
    &&& kstat_key_matches(s[i], ino, path)
    &&& forall|j: int| 0 <= j < i ==> !kstat_key_matches(#[trigger] s[j], ino, path)
}

/// Replaces the first rule with the same key as `r`, or appends `r` when there is none.
pub open spec fn kstat_upsert(s: Seq<KasumiKstatRuleConfig>, r: KasumiKstatRuleConfig) -> Seq<
    KasumiKstatRuleConfig,
> {
    if exists|i: int| first_kstat_match(s, r.target_ino, r.target_pathname@, i) {
        s.update(choose|i: int| first_kstat_match(s, r.target_ino, r.target_pathname@, i), r)
    } else {
        s.push(r)
    }
}

pub open spec fn kstat_keys_unique(s: Seq<KasumiKstatRuleConfig>) -> bool {
    forall|i: int, j: int|
        #![trigger s[i], s[j]]
        0 <= i < j < s.len() ==> !kstat_key_matches(s[i], s[j].target_ino, s[j].target_pathname@)
}

proof fn lemma_first_kstat_unique(s: Seq<KasumiKstatRuleConfig>, ino: u64, path: Seq<char>, i: int, k: int)
    requires
        first_kstat_match(s, ino, path, i),
        first_kstat_match(s, ino, path, k),
    ensures
        i == k,
{
    if i < k {
        assert(!kstat_key_matches(s[i], ino, path));
    } else if k < i {
        assert(!kstat_key_matches(s[k], ino, path));
    }
}

proof fn lemma_some_first_kstat_match(s: Seq<KasumiKstatRuleConfig>, ino: u64, path: Seq<char>, j: int)
    requires
        0 <= j < s.len(),
        kstat_key_matches(s[j], ino, path),
    ensures
        exists|i: int| first_kstat_match(s, ino, path, i),
    decreases j,
{
    if forall|k: int| 0 <= k < j ==> !kstat_key_matches(#[trigger] s[k], ino, path) {
        assert(first_kstat_match(s, ino, path, j));
    } else {
        let k = choose|k: int| 0 <= k < j && !!kstat_key_matches(#[trigger] s[k], ino, path);
        lemma_some_first_kstat_match(s, ino, path, k);
    }
}

/// The rule that `handle_kasumi_upsert_kstat_rule` builds from its arguments.
pub open spec fn kstat_rule_is(
    r: KasumiKstatRuleConfig,
    target_ino: u64,
    target_path: Seq<char>,
    spoofed_ino: u64,
    spoofed_dev: u64,
    spoofed_nlink: u32,
    spoofed_size: i64,
    spoofed_atime_sec: i64,
    spoofed_atime_nsec: i64,
    spoofed_mtime_sec: i64,
    spoofed_mtime_nsec: i64,
    spoofed_ctime_sec: i64,
    spoofed_ctime_nsec: i64,
    spoofed_blksize: u64,
    spoofed_blocks: u64,
    is_static: bool,
) -> bool {
    &&& r.target_ino == target_ino
    &&& r.target_pathname@ == target_path
    &&& r.spoofed_ino == spoofed_ino
    &&& r.spoofed_dev == spoofed_dev
    &&& r.spoofed_nlink == spoofed_nlink
    &&& r.spoofed_size == spoofed_size
    &&& r.spoofed_atime_sec == spoofed_atime_sec
    &&& r.spoofed_atime_nsec == spoofed_atime_nsec
    &&& r.spoofed_mtime_sec == spoofed_mtime_sec
    &&& r.spoofed_mtime_nsec == spoofed_mtime_nsec
    &&& r.spoofed_ctime_sec == spoofed_ctime_sec
    &&& r.spoofed_ctime_nsec == spoofed_ctime_nsec
    &&& r.spoofed_blksize == spoofed_blksize
    &&& r.spoofed_blocks == spoofed_blocks
    &&& r.is_static == is_static
}

/// Adds a kstat rule, replacing the first one with the same target inode and target path.
pub fn handle_kasumi_upsert_kstat_rule(
    config: &mut Config,
    target_ino: u64,
    target_path: &str,
    spoofed_ino: u64,
    spoofed_dev: u64,
    spoofed_nlink: u32,
    spoofed_size: i64,
    spoofed_atime_sec: i64,
    spoofed_atime_nsec: i64,
    spoofed_mtime_sec: i64,
    spoofed_mtime_nsec: i64,
    spoofed_ctime_sec: i64,
    spoofed_ctime_nsec: i64,
    spoofed_blksize: u64,
    spoofed_blocks: u64,
    is_static: bool,
)
    ensures
        exists|r: KasumiKstatRuleConfig|
            kstat_rule_is(
                r,
                target_ino,
                target_path@,
                spoofed_ino,
                spoofed_dev,
                spoofed_nlink,
                spoofed_size,
                spoofed_atime_sec,
                spoofed_atime_nsec,
                spoofed_mtime_sec,
                spoofed_mtime_nsec,
                spoofed_ctime_sec,
                spoofed_ctime_nsec,
                spoofed_blksize,
                spoofed_blocks,
                is_static,
            ) && final(config).kasumi.kstat_rules@ == #[trigger] kstat_upsert(
                old(config).kasumi.kstat_rules@,
                r,
            ),
        kasumi_now(
            *final(config),
            *old(config),
            KasumiConfig { kstat_rules: final(config).kasumi.kstat_rules, ..old(config).kasumi },
        ),
{
    let new_rule = KasumiKstatRuleConfig {
        target_ino,
        target_pathname: owned(target_path),
        spoofed_ino,
        spoofed_dev,
        spoofed_nlink,
        spoofed_size,
        spoofed_atime_sec,
        spoofed_atime_nsec,
        spoofed_mtime_sec,
        spoofed_mtime_nsec,
        spoofed_ctime_sec,
        spoofed_ctime_nsec,
        spoofed_blksize,
        spoofed_blocks,
        is_static,
    };
    let ghost r = new_rule;
    let ghost s = config.kasumi.kstat_rules@;
    let tp = chars_of(target_path);
    let n = config.kasumi.kstat_rules.len();
    let mut i: usize = 0;
    while i < n
        invariant
            n == s.len(),
            i <= n,
            s == config.kasumi.kstat_rules@,
            tp@ == target_path@,
            forall|j: int| 0 <= j < i ==> !kstat_key_matches(#[trigger] s[j], target_ino, target_path@),
        ensures
            i <= n,
            s == config.kasumi.kstat_rules@,
            forall|j: int| 0 <= j < i ==> !kstat_key_matches(#[trigger] s[j], target_ino, target_path@),
            i < n ==> kstat_key_matches(s[i as int], target_ino, target_path@),
        decreases n - i,
    {
        let rule = &config.kasumi.kstat_rules[i];
        if rule.target_ino == target_ino {
            let rp = chars_of(rule.target_pathname.as_str());
            if path_eq_exec(&rp, &tp) {
                break;
            }
        }
        i += 1;
    }
    if i < n {
        config.kasumi.kstat_rules.set(i, new_rule);
        proof {
            assert(r.target_ino == target_ino && r.target_pathname@ == target_path@);
            assert(first_kstat_match(s, r.target_ino, r.target_pathname@, i as int));
            let k = choose|k: int| first_kstat_match(s, r.target_ino, r.target_pathname@, k);
            lemma_first_kstat_unique(s, target_ino, target_path@, i as int, k);
            assert(config.kasumi.kstat_rules@ == s.update(i as int, r));
        }
        assert(config.kasumi.kstat_rules@ == kstat_upsert(s, r));
    } else {
        assert(!exists|k: int| first_kstat_match(s, target_ino, target_path@, k));
        config.kasumi.kstat_rules.push(new_rule);
        assert(config.kasumi.kstat_rules@ == kstat_upsert(s, r));
    }
}

/// Law: adding the same kstat rule twice leaves the rules as adding it once.
pub proof fn lemma_kstat_upsert_idempotent(s: Seq<KasumiKstatRuleConfig>, r: KasumiKstatRuleConfig)
    ensures
        kstat_upsert(kstat_upsert(s, r), r) == kstat_upsert(s, r),
{
    let t = kstat_upsert(s, r);
    let p = r.target_pathname@;
    assert(kstat_key_matches(r, r.target_ino, p));
    if exists|i: int| first_kstat_match(s, r.target_ino, p, i) {
        let i = choose|i: int| first_kstat_match(s, r.target_ino, p, i);
        assert(first_kstat_match(t, r.target_ino, p, i)) by {
            assert forall|j: int| 0 <= j < i implies !kstat_key_matches(#[trigger] t[j], r.target_ino, p) by {
                assert(t[j] == s[j]);
            }
        }
        let k = choose|k: int| first_kstat_match(t, r.target_ino, p, k);
        lemma_first_kstat_unique(t, r.target_ino, p, i, k);
        assert(t.update(i, r) =~= t);
    } else {
        let i = s.len() as int;
        assert(first_kstat_match(t, r.target_ino, p, i)) by {
            assert forall|j: int| 0 <= j < i implies !kstat_key_matches(#[trigger] t[j], r.target_ino, p) by {
                assert(t[j] == s[j]);
                if kstat_key_matches(s[j], r.target_ino, p) {
                    lemma_some_first_kstat_match(s, r.target_ino, p, j);
                }
            }
        }
        let k = choose|k: int| first_kstat_match(t, r.target_ino, p, k);
        lemma_first_kstat_unique(t, r.target_ino, p, i, k);
        assert(t.update(i, r) =~= t);
    }
}

/// Law: adding a kstat rule keeps rule keys unique.
pub proof fn lemma_kstat_upsert_keeps_keys_unique(s: Seq<KasumiKstatRuleConfig>, r: KasumiKstatRuleConfig)
    requires
        kstat_keys_unique(s),
    ensures
        kstat_keys_unique(kstat_upsert(s, r)),
{
    let t = kstat_upsert(s, r);
    let p = r.target_pathname@;
    if exists|i: int| first_kstat_match(s, r.target_ino, p, i) {
        let i = choose|i: int| first_kstat_match(s, r.target_ino, p, i);
        assert forall|a: int, b: int| #![trigger t[a], t[b]] 0 <= a < b < t.len() implies !kstat_key_matches(
            t[a],
            t[b].target_ino,
            t[b].target_pathname@,
        ) by {
            if a != i && b != i {
                assert(t[a] == s[a] && t[b] == s[b]);
            } else if a == i {
                assert(t[b] == s[b]);
                assert(!kstat_key_matches(s[a], s[b].target_ino, s[b].target_pathname@));
            } else {
                assert(t[a] == s[a]);
                assert(!kstat_key_matches(s[a], s[b].target_ino, s[b].target_pathname@));
            }
        }
    } else {
        assert forall|a: int, b: int| #![trigger t[a], t[b]] 0 <= a < b < t.len() implies !kstat_key_matches(
            t[a],
            t[b].target_ino,
            t[b].target_pathname@,
        ) by {
            assert(t[a] == s[a]);
            if b == s.len() {
                if kstat_key_matches(s[a], r.target_ino, p) {
                    lemma_some_first_kstat_match(s, r.target_ino, p, a);
                }
            } else {
                assert(t[b] == s[b]);
            }
        }
    }
}

} // verus!
