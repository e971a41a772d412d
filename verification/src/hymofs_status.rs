//! HymoFS status as the commands report it: hook listings, liveness checks,
//! and the runtime summary assembled from what the kernel reports.

use vstd::prelude::*;
use crate::config::Config;
use crate::recovery::names;
use crate::text::{
    chars_of, is_ws, split_chars, split_on, string_from_chars, trim, trim_chars, trim_end, trim_start,
};

verus! {

broadcast use vstd::string::group_string_axioms;

/// The trimmed, non-blank lines among `parts`, in order.
pub open spec fn nonblank_trimmed(parts: Seq<Seq<char>>) -> Seq<Seq<char>>
    decreases parts.len(),
{
    if parts.len() == 0 {
        Seq::empty()
    } else {
        let r = nonblank_trimmed(parts.drop_last());
        let t = trim(parts.last());
        if t.len() > 0 {
            r.push(t)
        } else {
            r
        }
    }
}

/// The hook lines of a kernel listing: each line trimmed, blank lines dropped.
pub open spec fn hook_lines_of(raw: Seq<char>) -> Seq<Seq<char>> {
    nonblank_trimmed(split_on(raw, '\n'))
}

/// Turns the kernel's hook listing into its non-blank, trimmed lines.
pub fn hook_lines(raw: &str) -> (r: Vec<String>)
    ensures
        names(r@) == hook_lines_of(raw@),
{
    let cs = chars_of(raw);
    let parts = split_chars(&cs, '\n');
    let ghost pv = parts@.map_values(|v: Vec<char>| v@);
    let mut out: Vec<String> = Vec::new();
    let mut i: usize = 0;
    assert(names(out@) =~= Seq::<Seq<char>>::empty());
    while i < parts.len()
        invariant
            i <= parts.len(),
            pv == parts@.map_values(|v: Vec<char>| v@),
            names(out@) == nonblank_trimmed(pv.take(i as int)),
        decreases parts.len() - i,
    {
        assert(pv.take(i + 1).drop_last() =~= pv.take(i as int));
        assert(pv.take(i + 1).last() == parts@[i as int]@);
        let t = trim_chars(&parts[i]);
        if t.len() > 0 {
            let ghost prev = names(out@);
            let s = string_from_chars(&t);
            out.push(s);
            assert(names(out@) =~= prev.push(t@));
        }
        i += 1;
    }
    assert(pv.take(parts.len() as int) =~= pv);
    out
}

/// The message of a refused live operation.
pub open spec fn not_live_message(description: Seq<char>, status: Seq<char>) -> Seq<char> {
    "HymoFS is not available for "@ + description + " (status="@ + status + ")"@
}

/// Succeeds when HymoFS can operate; otherwise fails naming the operation and the status.
pub fn require_live(operable: bool, description: &str, status_name: &str) -> (r: Result<(), String>)
    ensures
        operable <==> r is Ok,
        r matches Err(m) ==> m@ == not_live_message(description@, status_name@),
{
    if operable {
        return Ok(());
    }
    let mut m = String::new();
    m.append("HymoFS is not available for ");
    m.append(description);
    m.append(" (status=");
    m.append(status_name);
    m.append(")");
    assert(m@ =~= not_live_message(description@, status_name@));
    Err(m)
}

/// Whether HymoFS can operate: the kernel check, told whether protocol
/// mismatches are to be ignored as the configuration says.
pub fn can_operate<F: Fn(bool) -> bool>(config: &Config, kernel_check: F) -> (r: bool)
    requires
        call_requires(kernel_check, (config.hymofs.ignore_protocol_mismatch,)),
    ensures
        call_ensures(kernel_check, (config.hymofs.ignore_protocol_mismatch,), r),
{
    kernel_check(config.hymofs.ignore_protocol_mismatch)
}

/// What the kernel reported about HymoFS.
pub struct HymoFsProbe {
    pub status_name: String,
    pub available: bool,
    pub protocol_version: Option<i32>,
    pub feature_bits: Option<i32>,
    /// The names of the bits in `feature_bits`.
    pub feature_names: Vec<String>,
    /// The raw hook listing, if it could be read.
    pub hooks: Option<String>,
    /// The number of active rules, if they could be read.
    pub rule_count: Option<usize>,
}

/// What is known of the kernel module and the user hide rules.
pub struct LkmProbe {
    pub loaded: bool,
    pub current_kmi: String,
    pub user_hide_rule_count: usize,
}

pub struct HymoFsRuntimeInfo {
    pub status: String,
    pub available: bool,
    pub lkm_loaded: bool,
    pub lkm_autoload: bool,
    pub lkm_kmi_override: String,
    pub lkm_current_kmi: String,
    pub lkm_dir: String,
    pub protocol_version: Option<i32>,
    pub feature_bits: Option<i32>,
    pub feature_names: Vec<String>,
    pub hooks: Vec<String>,
    pub rule_count: usize,
    pub user_hide_rule_count: usize,
    pub mirror_path: String,
}

fn copy_string(s: &String) -> (r: String)
    ensures
        r@ == s@,
{
    s.clone()
}

fn copy_strings(v: &Vec<String>) -> (r: Vec<String>)
    ensures
        names(r@) == names(v@),
{
    let mut r: Vec<String> = Vec::new();
    let mut i: usize = 0;
    while i < v.len()
        invariant
            i <= v.len(),
            names(r@) == names(v@).take(i as int),
        decreases v.len() - i,
    {
        let ghost prev = names(r@);
        r.push(v[i].clone());
        assert(names(r@) =~= prev.push(v@[i as int]@));
        assert(names(v@).take(i + 1) =~= names(v@).take(i as int).push(v@[i as int]@));
        i += 1;
    }
    assert(names(v@).take(v.len() as int) =~= names(v@));
    r
}

/// The runtime summary: a fixed "disabled" record when HymoFS is off in the
/// configuration, otherwise what the kernel reported.
pub fn collect_runtime_info(config: &Config, lkm: &LkmProbe, kernel: &HymoFsProbe) -> (r: HymoFsRuntimeInfo)
    ensures
        r.lkm_loaded == lkm.loaded,
        r.lkm_autoload == config.hymofs.lkm_autoload,
        r.lkm_kmi_override@ == config.hymofs.lkm_kmi_override@,
        r.lkm_current_kmi@ == lkm.current_kmi@,
        r.lkm_dir@ == config.hymofs.lkm_dir@,
        r.user_hide_rule_count == lkm.user_hide_rule_count,
        r.mirror_path@ == config.hymofs.mirror_path@,
        !config.hymofs.enabled ==> {
            &&& r.status@ == "disabled"@
            &&& !r.available
            &&& r.protocol_version is None
            &&& r.feature_bits is None
            &&& r.feature_names@.len() == 0
            &&& r.hooks@.len() == 0
            &&& r.rule_count == 0
        },
        config.hymofs.enabled ==> {
            &&& r.status@ == kernel.status_name@
            &&& r.available == kernel.available
            &&& r.protocol_version == kernel.protocol_version
            &&& r.feature_bits == kernel.feature_bits
            &&& names(r.feature_names@) == (if kernel.feature_bits is Some {
                names(kernel.feature_names@)
            } else {
                Seq::empty()
            })
            &&& names(r.hooks@) == (match kernel.hooks {
                Some(raw) => hook_lines_of(raw@),
                None => Seq::empty(),
            })
            &&& r.rule_count == (match kernel.rule_count {
                Some(n) => n,
                None => 0,
            })
        },
{
    if !config.hymofs.enabled {
        return HymoFsRuntimeInfo {
            status: "disabled".to_owned(),
            available: false,
            lkm_loaded: lkm.loaded,
            lkm_autoload: config.hymofs.lkm_autoload,
            lkm_kmi_override: copy_string(&config.hymofs.lkm_kmi_override),
            lkm_current_kmi: copy_string(&lkm.current_kmi),
            lkm_dir: copy_string(&config.hymofs.lkm_dir),
            protocol_version: None,
            feature_bits: None,
            feature_names: Vec::new(),
            hooks: Vec::new(),
            rule_count: 0,
            user_hide_rule_count: lkm.user_hide_rule_count,
            mirror_path: copy_string(&config.hymofs.mirror_path),
        };
    }
    let feature_names = if kernel.feature_bits.is_some() {
        copy_strings(&kernel.feature_names)
    } else {
        let v: Vec<String> = Vec::new();
        assert(names(v@) =~= Seq::<Seq<char>>::empty());
        v
    };
    let hooks = match &kernel.hooks {
        Some(raw) => hook_lines(raw.as_str()),
        None => {
            let v: Vec<String> = Vec::new();
            assert(names(v@) =~= Seq::<Seq<char>>::empty());
            v
        },
    };
    let rule_count = match kernel.rule_count {
        Some(n) => n,
        None => 0,
    };
    HymoFsRuntimeInfo {
        status: copy_string(&kernel.status_name),
        available: kernel.available,
        lkm_loaded: lkm.loaded,
        lkm_autoload: config.hymofs.lkm_autoload,
        lkm_kmi_override: copy_string(&config.hymofs.lkm_kmi_override),
        lkm_current_kmi: copy_string(&lkm.current_kmi),
        lkm_dir: copy_string(&config.hymofs.lkm_dir),
        protocol_version: kernel.protocol_version,
        feature_bits: kernel.feature_bits,
        feature_names,
        hooks,
        rule_count,
        user_hide_rule_count: lkm.user_hide_rule_count,
        mirror_path: copy_string(&config.hymofs.mirror_path),
    }
}


proof fn lemma_trim_start_front(s: Seq<char>)
    ensures
        trim_start(s).len() > 0 ==> !is_ws(trim_start(s)[0]),
        trim_start(s).len() <= s.len(),
    decreases s.len(),
{
    if s.len() > 0 && is_ws(s[0]) {
        lemma_trim_start_front(s.drop_first());
    }
}

proof fn lemma_trim_end_ends(s: Seq<char>)
    ensures
        trim_end(s).len() > 0 ==> !is_ws(trim_end(s).last()),
        trim_end(s).len() <= s.len(),
        trim_end(s) == s.take(trim_end(s).len() as int),
    decreases s.len(),
{
    if s.len() > 0 && is_ws(s.last()) {
        lemma_trim_end_ends(s.drop_last());
        assert(s.drop_last().take(trim_end(s).len() as int) =~= s.take(trim_end(s).len() as int));
    } else {
        assert(s.take(s.len() as int) =~= s);
    }
}

/// A trimmed text neither starts nor ends with whitespace.
pub open spec fn is_trimmed(t: Seq<char>) -> bool {
    t.len() > 0 ==> (!is_ws(t[0]) && !is_ws(t.last()))
}

proof fn lemma_nonblank_trimmed_clean(parts: Seq<Seq<char>>)
    ensures
        forall|i: int| 0 <= i < nonblank_trimmed(parts).len() ==> {
            let l = #[trigger] nonblank_trimmed(parts)[i];
            l.len() > 0 && is_trimmed(l)
        },
    decreases parts.len(),
{
    if parts.len() > 0 {
        lemma_nonblank_trimmed_clean(parts.drop_last());
        let t = trim(parts.last());
        let u = trim_start(parts.last());
        lemma_trim_start_front(parts.last());
        lemma_trim_end_ends(u);
        if t.len() > 0 {
            assert(t == u.take(t.len() as int));
            assert(u.take(t.len() as int)[0] == u[0]);
        }
        let r = nonblank_trimmed(parts);
        let r0 = nonblank_trimmed(parts.drop_last());
        assert forall|i: int| 0 <= i < r.len() implies {
            let l = #[trigger] r[i];
            l.len() > 0 && is_trimmed(l)
        } by {
            if i < r0.len() {
                assert(r[i] == r0[i]);
            }
        }
    }
}

/// Law: every hook line is non-blank and has no leading or trailing whitespace.
pub proof fn lemma_hook_lines_clean(raw: Seq<char>)
    ensures
        forall|i: int| 0 <= i < hook_lines_of(raw).len() ==> {
            let l = #[trigger] hook_lines_of(raw)[i];
            l.len() > 0 && is_trimmed(l)
        },
{
    lemma_nonblank_trimmed_clean(split_on(raw, '\n'));
}

} // verus!
