//! Mapping a path under a system root back to the virtual path that the
//! mounted system would show, keeping names that do not exist yet.

use vstd::prelude::*;
use crate::normalize::{all_clean, clean_name, lemma_pieces_join, lemma_pieces_no_sep, lemma_split_append};
use crate::path::{
    body_comps, body_of, components, file_name, head_comps, head_of, lemma_join_pieces, is_absolute, is_dotdot, join, lemma_parent_shorter,
    lemma_trim_back_last, lemma_trim_back_prefix, meaningless, parent, path_eq, piece_comp, pieces,
    push, render, skip_comps, split_state, strip_prefix, trim_back, trim_front, Comp, Head,
};
use crate::path_exec::{
    copy_chars, file_name_exec, is_absolute_exec, parent_exec, path_eq_exec, push_exec,
    strip_prefix_exec,
};
use crate::disk::{path_exists, Probe};
use crate::text::{chars_of, string_from_chars};

verus! {

/// The answer at position `i` of a list of existence answers (`false` past its end).
pub open spec fn answer_at(answers: Seq<bool>, i: nat) -> bool {
    if i < answers.len() {
        answers[i as int]
    } else {
        false
    }
}

/// The upward walk from `cur`: while `cur` is not the root and does not exist
/// (the `i`-th answer), remember its name and move to its parent.
/// Returns the place where the walk stopped, the names seen, and the number of answers read.
pub open spec fn walk(
    root: Seq<char>,
    cur: Seq<char>,
    suffix: Seq<Seq<char>>,
    ans: spec_fn(nat) -> bool,
    i: nat,
) -> (Seq<char>, Seq<Seq<char>>, nat)
    decreases cur.len(),
{
    if path_eq(cur, root) {
        (cur, suffix, i)
    } else if ans(i) {
        (cur, suffix, i + 1)
    } else {
        let suffix2 = match file_name(cur) {
            Some(n) => suffix.push(n),
            None => suffix,
        };
        match parent(cur) {
            Some(p) => {
                proof {
                    lemma_parent_shorter(cur);
                }
                walk(root, p, suffix2, ans, i + 1)
            },
            None => (cur, suffix2, i + 1),
        }
    }
}

/// Pushes the remembered names back, last remembered first.
pub open spec fn push_rev(base: Seq<char>, suffix: Seq<Seq<char>>) -> Seq<char>
    decreases suffix.len(),
{
    if suffix.len() == 0 {
        base
    } else {
        push_rev(push(base, suffix.last()), suffix.drop_last())
    }
}

pub open spec fn slash() -> Seq<char> {
    seq!['/']
}

/// The path as seen from `/`.
pub open spec fn virtual_path(path: Seq<char>) -> Seq<char> {
    if is_absolute(path) {
        path
    } else {
        push(slash(), path)
    }
}

/// The virtual path placed under the system root.
pub open spec fn translated_path(root: Seq<char>, path: Seq<char>) -> Seq<char> {
    let virt = virtual_path(path);
    if path_eq(root, slash()) {
        virt
    } else {
        let rel = match strip_prefix(virt, slash()) {
            Some(r) => r,
            None => virt,
        };
        push(root, rel)
    }
}

/// The result of `resolve_path_with_root` when the existence checks answer `ans`
/// in the order they are made.
pub open spec fn resolve_replay(root: Seq<char>, path: Seq<char>, ans: spec_fn(nat) -> bool) -> Seq<
    char,
> {
    let virt = virtual_path(path);
    let translated = translated_path(root, path);
    match (parent(translated), file_name(translated)) {
        (Some(par), Some(fname)) => {
            let w = walk(root, par, Seq::empty(), ans, 0);
            let base = if ans(w.2) {
                w.0
            } else {
                par
            };
            let resolved = push(push_rev(base, w.1), fname);
            if path_eq(root, slash()) {
                resolved
            } else {
                match strip_prefix(resolved, root) {
                    Some(rel) => push(slash(), rel),
                    None => virt,
                }
            }
        },
        _ => virt,
    }
}

/// `ans` repeats the recorded answers.
pub open spec fn agrees(ans: spec_fn(nat) -> bool, rec: Seq<bool>) -> bool {
    forall|j: nat| j < rec.len() ==> ans(j) == rec[j as int]
}

pub open spec fn recorded(rec: Seq<bool>) -> spec_fn(nat) -> bool {
    |i: nat| answer_at(rec, i)
}

fn slash_exec() -> (r: Vec<char>)
    ensures
        r@ == slash(),
{
    let mut v = Vec::new();
    v.push('/');
    assert(v@ =~= slash());
    v
}

/// The records of the probes, in order.
pub open spec fn probe_records(ps: Seq<Probe>) -> Seq<(Seq<char>, bool)> {
    ps.map_values(|p: Probe| p@)
}

/// Asks whether `p` exists: from the given answers, or from the disk, whose
/// record is kept in `probes`. The second part of the result is the path that
/// was asked about.
fn ask(p: &Vec<char>, given: Option<&Vec<bool>>, idx: usize, probes: &mut Vec<Probe>) -> (r: (
    bool,
    Ghost<Seq<char>>,
))
    ensures
        given matches Some(g) ==> r.0 == answer_at(g@, idx as nat),
        given matches Some(g) ==> (idx >= g.len() ==> !r.0),
        given is Some ==> final(probes)@ == old(probes)@,
        given is None ==> final(probes)@.len() == old(probes)@.len() + 1
            && final(probes)@.drop_last() == old(probes)@ && final(probes)@.last()@ == (p@, r.0),
        r.1@ == p@,
{
    match given {
        Some(g) => {
            if idx < g.len() {
                (g[idx], Ghost(p@))
            } else {
                (false, Ghost(p@))
            }
        },
        None => {
            let s = string_from_chars(p);
            let probe = path_exists(s.as_str());
            let found = probe.found();
            let ghost before = probes@;
            probes.push(probe);
            assert(probes@.drop_last() =~= before);
            (found, Ghost(p@))
        },
    }
}

fn push_rev_exec(base: Vec<char>, suffix: &Vec<Vec<char>>) -> (r: Vec<char>)
    ensures
        r@ == push_rev(base@, crate::path_exec::views(suffix@)),
{
    let ghost sv = crate::path_exec::views(suffix@);
    let mut acc = base;
    let mut k = suffix.len();
    assert(sv.take(k as int) =~= sv);
    while k > 0
        invariant
            k <= suffix.len(),
            sv == crate::path_exec::views(suffix@),
            push_rev(base@, sv) == push_rev(acc@, sv.take(k as int)),
        decreases k,
    {
        let ghost t = sv.take(k as int);
        assert(t.last() == suffix@[k - 1]@);
        assert(t.drop_last() =~= sv.take(k - 1));
        acc = push_exec(&acc, &suffix[k - 1]);
        k -= 1;
    }
    assert(sv.take(0) =~= Seq::<Seq<char>>::empty());
    acc
}

fn resolve_core(root: &Vec<char>, path: &Vec<char>, given: Option<&Vec<bool>>) -> (r: (
    Vec<char>,
    Ghost<Seq<bool>>,
    Ghost<Seq<Seq<char>>>,
    Vec<Probe>,
))
    ensures
        forall|f: spec_fn(nat) -> bool|
            agrees(f, r.1@) ==> r.0@ == #[trigger] resolve_replay(root@, path@, f),
        forall|f: spec_fn(nat) -> bool|
            agrees(f, r.1@) ==> r.2@ == #[trigger] resolve_asks(root@, path@, f),
        r.2@.len() == r.1@.len(),
        given is None ==> probe_records(r.3@) == Seq::new(r.2@.len(), |j: int| (r.2@[j], r.1@[j])),
        given matches Some(g) ==> forall|j: int|
            0 <= j < r.1@.len() ==> r.1@[j] == answer_at(g@, j as nat),
{
    let sl = slash_exec();
    let virt = if is_absolute_exec(path) {
        copy_chars(path)
    } else {
        push_exec(&sl, path)
    };
    let root_is_slash = path_eq_exec(root, &sl);
    let translated = if root_is_slash {
        copy_chars(&virt)
    } else {
        let rel = match strip_prefix_exec(&virt, &sl) {
            Some(r) => r,
            None => copy_chars(&virt),
        };
        push_exec(root, &rel)
    };
    assert(translated@ == translated_path(root@, path@));
    let ghost rec: Seq<bool> = Seq::empty();
    let ghost log: Seq<Seq<char>> = Seq::empty();
    let mut probes: Vec<Probe> = Vec::new();
    assert(probe_records(probes@) =~= Seq::new(log.len(), |j: int| (log[j], rec[j])));
    let par = match parent_exec(&translated) {
        Some(p) => p,
        None => {
            return (virt, Ghost(rec), Ghost(log), probes);
        },
    };
    let fname = match file_name_exec(&translated) {
        Some(n) => n,
        None => {
            return (virt, Ghost(rec), Ghost(log), probes);
        },
    };
    let mut current = copy_chars(&par);
    let mut suffix: Vec<Vec<char>> = Vec::new();
    let ghost mut idx: nat = 0;
    let mut pos: usize = 0;
    assert(crate::path_exec::views(suffix@) =~= Seq::<Seq<char>>::empty());
    loop
        invariant_except_break
            forall|f: spec_fn(nat) -> bool|
                agrees(f, rec) ==> #[trigger] walk(root@, par@, Seq::empty(), f, 0) == walk(
                    root@,
                    current@,
                    crate::path_exec::views(suffix@),
                    f,
                    idx as nat,
                ),
            forall|f: spec_fn(nat) -> bool|
                agrees(f, rec) ==> #[trigger] walk_asks(root@, par@, f, 0) == log + walk_asks(
                    root@,
                    current@,
                    f,
                    idx as nat,
                ),
        invariant
            idx == rec.len(),
            log.len() == rec.len(),
            given is None ==> probe_records(probes@) == Seq::new(log.len(), |j: int| (log[j], rec[j])),
            given matches Some(g) ==> pos == (if idx < g.len() { idx } else { g.len() as nat }),
            given matches Some(g) ==> forall|j: int|
                0 <= j < rec.len() ==> rec[j] == answer_at(g@, j as nat),
        ensures
            idx == rec.len(),
            log.len() == rec.len(),
            given is None ==> probe_records(probes@) == Seq::new(log.len(), |j: int| (log[j], rec[j])),
            given matches Some(g) ==> forall|j: int|
                0 <= j < rec.len() ==> rec[j] == answer_at(g@, j as nat),
            forall|f: spec_fn(nat) -> bool|
                agrees(f, rec) ==> #[trigger] walk(root@, par@, Seq::empty(), f, 0) == (
                    current@,
                    crate::path_exec::views(suffix@),
                    idx as nat,
                ),
            forall|f: spec_fn(nat) -> bool|
                agrees(f, rec) ==> #[trigger] walk_asks(root@, par@, f, 0) == log,
        decreases current@.len(),
    {
        if path_eq_exec(&current, root) {
            assert forall|f: spec_fn(nat) -> bool| agrees(f, rec) implies #[trigger] walk_asks(
                root@,
                par@,
                f,
                0,
            ) == log by {
                assert(walk_asks(root@, par@, f, 0) == log + walk_asks(root@, current@, f, idx as nat));
                assert(log + Seq::<Seq<char>>::empty() =~= log);
            }
            break;
        }
        let ghost old_cur = current@;
        let ghost old_suf = crate::path_exec::views(suffix@);
        let ghost old_rec = rec;
        let ghost old_idx = idx as nat;
        let ghost old_log = log;
        let ghost old_probes = probes@;
        let (a, asked) = ask(&current, given, pos, &mut probes);
        proof {
            rec = rec.push(a);
            idx = idx + 1;
            log = log.push(asked@);
            if given is None {
                assert(probe_records(probes@) =~= probe_records(old_probes).push((asked@, a)));
                assert(probe_records(probes@) =~= Seq::new(log.len(), |j: int| (log[j], rec[j])));
            }
        }
        match given {
            Some(g) => {
                if pos < g.len() {
                    pos = pos + 1;
                }
            },
            None => {},
        }
        if a {
            assert forall|f: spec_fn(nat) -> bool| agrees(f, rec) implies #[trigger] walk(
                root@,
                par@,
                Seq::empty(),
                f,
                0,
            ) == (current@, crate::path_exec::views(suffix@), idx as nat) by {
                assert(agrees(f, old_rec)) by {
                    assert forall|j: nat| j < old_rec.len() implies f(j) == old_rec[j as int] by {
                        assert(rec[j as int] == old_rec[j as int]);
                    }
                }
                assert(f(old_idx) == rec[old_idx as int]);
            }
            assert forall|f: spec_fn(nat) -> bool| agrees(f, rec) implies #[trigger] walk_asks(
                root@,
                par@,
                f,
                0,
            ) == log by {
                assert(agrees(f, old_rec)) by {
                    assert forall|j: nat| j < old_rec.len() implies f(j) == old_rec[j as int] by {
                        assert(rec[j as int] == old_rec[j as int]);
                    }
                }
                assert(f(old_idx) == rec[old_idx as int]);
                assert(walk_asks(root@, old_cur, f, old_idx) == seq![old_cur]);
                assert(old_log + seq![old_cur] =~= log);
            }
            break;
        }
        match file_name_exec(&current) {
            Some(n) => {
                suffix.push(n);
            },
            None => {},
        }
        let ghost suf2 = crate::path_exec::views(suffix@);
        assert(suf2 == (match file_name(old_cur) {
            Some(n) => old_suf.push(n),
            None => old_suf,
        })) by {
            if file_name(old_cur) is Some {
                assert(suf2 =~= old_suf.push(file_name(old_cur)->0));
            }
        }
        match parent_exec(&current) {
            Some(p) => {
                proof {
                    lemma_parent_shorter(old_cur);
                }
                current = p;
                assert forall|f: spec_fn(nat) -> bool| agrees(f, rec) implies #[trigger] walk(
                    root@,
                    par@,
                    Seq::empty(),
                    f,
                    0,
                ) == walk(root@, current@, suf2, f, idx as nat) by {
                    assert(agrees(f, old_rec)) by {
                        assert forall|j: nat| j < old_rec.len() implies f(j) == old_rec[j as int] by {
                            assert(rec[j as int] == old_rec[j as int]);
                        }
                    }
                    assert(f(old_idx) == rec[old_idx as int]);
                }
                assert forall|f: spec_fn(nat) -> bool| agrees(f, rec) implies #[trigger] walk_asks(
                    root@,
                    par@,
                    f,
                    0,
                ) == log + walk_asks(root@, current@, f, idx as nat) by {
                    assert(agrees(f, old_rec)) by {
                        assert forall|j: nat| j < old_rec.len() implies f(j) == old_rec[j as int] by {
                            assert(rec[j as int] == old_rec[j as int]);
                        }
                    }
                    assert(f(old_idx) == rec[old_idx as int]);
                    assert(walk_asks(root@, old_cur, f, old_idx) == seq![old_cur] + walk_asks(
                        root@,
                        current@,
                        f,
                        idx as nat,
                    ));
                    assert(old_log + (seq![old_cur] + walk_asks(root@, current@, f, idx as nat))
                        =~= log + walk_asks(root@, current@, f, idx as nat));
                }
            },
            None => {
                assert forall|f: spec_fn(nat) -> bool| agrees(f, rec) implies #[trigger] walk(
                    root@,
                    par@,
                    Seq::empty(),
                    f,
                    0,
                ) == (current@, suf2, idx as nat) by {
                    assert(agrees(f, old_rec)) by {
                        assert forall|j: nat| j < old_rec.len() implies f(j) == old_rec[j as int] by {
                            assert(rec[j as int] == old_rec[j as int]);
                        }
                    }
                    assert(f(old_idx) == rec[old_idx as int]);
                }
                assert forall|f: spec_fn(nat) -> bool| agrees(f, rec) implies #[trigger] walk_asks(
                    root@,
                    par@,
                    f,
                    0,
                ) == log by {
                    assert(agrees(f, old_rec)) by {
                        assert forall|j: nat| j < old_rec.len() implies f(j) == old_rec[j as int] by {
                            assert(rec[j as int] == old_rec[j as int]);
                        }
                    }
                    assert(f(old_idx) == rec[old_idx as int]);
                    assert(walk_asks(root@, old_cur, f, old_idx) == seq![old_cur]);
                    assert(old_log + seq![old_cur] =~= log);
                }
                break;
            },
        }
    }
    let ghost w_rec = rec;
    let ghost w_idx = idx as nat;
    let ghost w_log = log;
    let ghost old_probes = probes@;
    let (b, asked) = ask(&current, given, pos, &mut probes);
    proof {
        rec = rec.push(b);
        log = log.push(asked@);
        if given is None {
            assert(probe_records(probes@) =~= probe_records(old_probes).push((asked@, b)));
            assert(probe_records(probes@) =~= Seq::new(log.len(), |j: int| (log[j], rec[j])));
        }
    }
    let base = if b { current } else { par };
    let ghost sv = crate::path_exec::views(suffix@);
    let pr = push_rev_exec(base, &suffix);
    let resolved = push_exec(&pr, &fname);
    let result = if root_is_slash {
        resolved
    } else {
        match strip_prefix_exec(&resolved, root) {
            Some(rel) => push_exec(&sl, &rel),
            None => virt,
        }
    };
    assert forall|f: spec_fn(nat) -> bool| agrees(f, rec) implies result@ == #[trigger] resolve_replay(
        root@,
        path@,
        f,
    ) by {
        assert(agrees(f, w_rec)) by {
            assert forall|j: nat| j < w_rec.len() implies f(j) == w_rec[j as int] by {
                assert(rec[j as int] == w_rec[j as int]);
            }
        }
        assert(f(w_idx) == rec[w_idx as int]);
    }
    assert forall|f: spec_fn(nat) -> bool| agrees(f, rec) implies log == #[trigger] resolve_asks(
        root@,
        path@,
        f,
    ) by {
        assert(agrees(f, w_rec)) by {
            assert forall|j: nat| j < w_rec.len() implies f(j) == w_rec[j as int] by {
                assert(rec[j as int] == w_rec[j as int]);
            }
        }
        assert(walk_asks(root@, par@, f, 0) == w_log);
        assert(walk(root@, par@, Seq::empty(), f, 0).0 == asked@);
    }
    (result, Ghost(rec), Ghost(log), probes)
}

/// The record of a resolution's disk questions: the `j`-th entry is the
/// `j`-th path asked about and the answer `ans` gives at position `j`.
pub open spec fn asks_match(
    asks: Seq<(Seq<char>, bool)>,
    root: Seq<char>,
    path: Seq<char>,
    ans: spec_fn(nat) -> bool,
) -> bool {
    &&& asks.len() == resolve_asks(root, path, ans).len()
    &&& forall|j: int|
        0 <= j < asks.len() ==> (#[trigger] asks[j]).0 == resolve_asks(root, path, ans)[j]
            && asks[j].1 == ans(j as nat)
}

/// Resolves `path` against `system_root`: names under the deepest existing
/// ancestor are kept as written, and the result is expressed as seen from `/`.
/// The second part of the result holds the records of the disk's answers,
/// in the order the questions were asked; the result is the resolution under exactly
/// those answers.
pub fn resolve_path_with_root(system_root: &str, path: &str) -> (r: (String, Vec<Probe>))
    ensures
        exists|f: spec_fn(nat) -> bool|
            r.0@ == #[trigger] resolve_replay(system_root@, path@, f) && asks_match(
                probe_records(r.1@),
                system_root@,
                path@,
                f,
            ),
{
    let root = chars_of(system_root);
    let p = chars_of(path);
    let (out, Ghost(rec), Ghost(log), probes) = resolve_core(&root, &p, None);
    let ghost f = recorded(rec);
    assert(agrees(f, rec));
    assert(out@ == resolve_replay(system_root@, path@, f));
    assert(asks_match(probe_records(probes@), system_root@, path@, f));
    (string_from_chars(&out), probes)
}

/// The same resolution, with the existence checks answered by `answers` in the
/// order they are made (`false` once the list runs out).
pub fn resolve_path_with_answers(system_root: &str, path: &str, answers: &Vec<bool>) -> (r: String)
    ensures
        r@ == resolve_replay(system_root@, path@, recorded(answers@)),
{
    let root = chars_of(system_root);
    let p = chars_of(path);
    let (out, Ghost(rec), _, _) = resolve_core(&root, &p, Some(answers));
    assert(agrees(recorded(answers@), rec));
    string_from_chars(&out)
}


proof fn lemma_push_absolute(b: Seq<char>, x: Seq<char>)
    requires
        is_absolute(b),
    ensures
        is_absolute(push(b, x)),
{
    if !is_absolute(x) {
        if b.len() > 0 && b.last() != '/' {
            assert((b + seq!['/'] + x)[0] == b[0]);
        } else {
            assert((b + x)[0] == b[0]);
        }
    }
}

proof fn lemma_parent_absolute(s: Seq<char>)
    requires
        is_absolute(s),
        parent(s) is Some,
    ensures
        is_absolute(parent(s)->0),
{
    assert(crate::path::head_of(s) == crate::path::Head::Root);
}

proof fn lemma_push_rev_absolute(b: Seq<char>, suffix: Seq<Seq<char>>)
    requires
        is_absolute(b),
    ensures
        is_absolute(push_rev(b, suffix)),
    decreases suffix.len(),
{
    if suffix.len() > 0 {
        lemma_push_absolute(b, suffix.last());
        lemma_push_rev_absolute(push(b, suffix.last()), suffix.drop_last());
    }
}

proof fn lemma_walk_absolute(
    root: Seq<char>,
    cur: Seq<char>,
    suffix: Seq<Seq<char>>,
    ans: spec_fn(nat) -> bool,
    i: nat,
)
    requires
        is_absolute(cur),
    ensures
        is_absolute(walk(root, cur, suffix, ans, i).0),
    decreases cur.len(),
{
    if !path_eq(cur, root) && !ans(i) {
        let suffix2 = match file_name(cur) {
            Some(n) => suffix.push(n),
            None => suffix,
        };
        if parent(cur) is Some {
            lemma_parent_shorter(cur);
            lemma_parent_absolute(cur);
            lemma_walk_absolute(root, parent(cur)->0, suffix2, ans, i + 1);
        }
    }
}

/// Law: whatever the existence checks answer, the resolved path is absolute.
pub proof fn lemma_resolve_absolute(root: Seq<char>, path: Seq<char>, ans: spec_fn(nat) -> bool)
    ensures
        is_absolute(resolve_replay(root, path, ans)),
{
    let virt = virtual_path(path);
    if !is_absolute(path) {
        lemma_push_absolute(slash(), path);
    }
    let translated = translated_path(root, path);
    if let (Some(par), Some(fname)) = (parent(translated), file_name(translated)) {
        let w = walk(root, par, Seq::empty(), ans, 0);
        if path_eq(root, slash()) {
            lemma_parent_absolute(translated);
            lemma_walk_absolute(root, par, Seq::empty(), ans, 0);
            let base = if ans(w.2) { w.0 } else { par };
            lemma_push_rev_absolute(base, w.1);
            lemma_push_absolute(push_rev(base, w.1), fname);
        } else {
            let resolved = push(push_rev(if ans(w.2) { w.0 } else { par }, w.1), fname);
            if let Some(rel) = strip_prefix(resolved, root) {
                lemma_push_absolute(slash(), rel);
            }
        }
    }
}


/// The components of a path hold no `..`.
pub open spec fn no_parent_comps(s: Seq<char>) -> bool {
    forall|i: int| 0 <= i < components(s).len() ==> #[trigger] components(s)[i] != Comp::Parent
}

/// The names pushed back by `push_rev`, as components, in the order they are pushed.
pub open spec fn normals_rev(suffix: Seq<Seq<char>>) -> Seq<Comp>
    decreases suffix.len(),
{
    if suffix.len() == 0 {
        Seq::empty()
    } else {
        seq![Comp::Normal(suffix.last())] + normals_rev(suffix.drop_last())
    }
}

/// The paths the upward walk asks the disk about, in order.
pub open spec fn walk_asks(root: Seq<char>, cur: Seq<char>, ans: spec_fn(nat) -> bool, i: nat) -> Seq<
    Seq<char>,
>
    decreases cur.len(),
{
    if path_eq(cur, root) {
        Seq::empty()
    } else if ans(i) {
        seq![cur]
    } else {
        match parent(cur) {
            Some(p) => {
                proof {
                    lemma_parent_shorter(cur);
                }
                seq![cur] + walk_asks(root, p, ans, i + 1)
            },
            None => seq![cur],
        }
    }
}

/// The paths `resolve_path_with_root` asks the disk about, in order, when the
/// answers are `ans`: the walk's questions, then the place where the walk stopped.
pub open spec fn resolve_asks(root: Seq<char>, path: Seq<char>, ans: spec_fn(nat) -> bool) -> Seq<
    Seq<char>,
> {
    let translated = translated_path(root, path);
    match (parent(translated), file_name(translated)) {
        (Some(par), Some(fname)) => walk_asks(root, par, ans, 0).push(
            walk(root, par, Seq::empty(), ans, 0).0,
        ),
        _ => Seq::empty(),
    }
}

/// The answers `ans` are those of a disk `d` that does not change while the
/// resolution asks its questions.
pub open spec fn answered_by(
    root: Seq<char>,
    path: Seq<char>,
    ans: spec_fn(nat) -> bool,
    d: spec_fn(Seq<char>) -> bool,
) -> bool {
    forall|j: int|
        0 <= j < resolve_asks(root, path, ans).len() ==> ans(j as nat) == d(
            #[trigger] resolve_asks(root, path, ans)[j],
        )
}

proof fn lemma_body_comps_trim(qs: Seq<Seq<char>>)
    ensures
        body_comps(trim_back(qs)) == body_comps(qs),
    decreases qs.len(),
{
    if qs.len() > 0 && meaningless(qs.last()) {
        lemma_body_comps_trim(qs.drop_last());
    }
}

proof fn lemma_abs_comps(s: Seq<char>)
    requires
        is_absolute(s),
    ensures
        components(s) == seq![Comp::Root] + body_comps(pieces(s.drop_first())),
{
}

proof fn lemma_slash_comps()
    ensures
        components(slash()) == seq![Comp::Root],
{
    assert(slash().drop_first() =~= Seq::<char>::empty());
    assert(split_state(Seq::<char>::empty()) == (Seq::<Seq<char>>::empty(), Seq::<char>::empty()));
    let ps = pieces(Seq::<char>::empty());
    assert(ps =~= seq![Seq::<char>::empty()]);
    assert(meaningless(ps.last()));
    assert(ps.drop_last() =~= Seq::<Seq<char>>::empty());
    assert(body_comps(Seq::<Seq<char>>::empty()) =~= Seq::<Comp>::empty());
    assert(body_comps(ps) == body_comps(ps.drop_last()));
    assert(body_comps(ps) =~= Seq::<Comp>::empty());
    assert(seq![Comp::Root] + Seq::<Comp>::empty() =~= seq![Comp::Root]);
}

/// The components of `/` followed by separator-free pieces.
proof fn lemma_render_root_comps(q: Seq<Seq<char>>)
    requires
        forall|k: int, i: int| 0 <= k < q.len() && 0 <= i < q[k].len() ==> q[k][i] != '/',
    ensures
        is_absolute(render(Head::Root, q)),
        components(render(Head::Root, q)) == seq![Comp::Root] + body_comps(q),
{
    let r = render(Head::Root, q);
    assert(r == seq!['/'] + join(q));
    assert(r.drop_first() =~= join(q));
    if q.len() > 0 {
        lemma_pieces_join(q);
    } else {
        assert(join(q) == Seq::<char>::empty());
        assert(split_state(Seq::<char>::empty()) == (Seq::<Seq<char>>::empty(), Seq::<char>::empty()));
        let ps = pieces(Seq::<char>::empty());
        assert(ps =~= seq![Seq::<char>::empty()]);
        assert(ps.drop_last() =~= Seq::<Seq<char>>::empty());
        assert(q =~= Seq::<Seq<char>>::empty());
        assert(body_comps(ps) == body_comps(ps.drop_last()));
        assert(body_comps(ps) =~= body_comps(q));
    }
}

/// An absolute path other than `/` has a parent and a last name; it is that
/// name pushed on the parent.
proof fn lemma_parent_step(s: Seq<char>)
    requires
        is_absolute(s),
        !path_eq(s, slash()),
        no_parent_comps(s),
    ensures
        parent(s) is Some,
        file_name(s) is Some,
        is_absolute(parent(s)->0),
        no_parent_comps(parent(s)->0),
        clean_name(file_name(s)->0),
        components(s) == components(parent(s)->0).push(Comp::Normal(file_name(s)->0)),
{
    let ps = pieces(s.drop_first());
    let t = trim_back(ps);
    lemma_abs_comps(s);
    lemma_slash_comps();
    lemma_body_comps_trim(ps);
    lemma_trim_back_prefix(ps);
    lemma_trim_back_last(ps);
    lemma_pieces_no_sep(s.drop_first());
    if t.len() == 0 {
        assert(body_comps(t) =~= Seq::<Comp>::empty());
        assert(components(s) =~= seq![Comp::Root]);
        assert(false);
    }
    let n = t.last();
    let d = t.drop_last();
    assert(t.drop_last().push(t.last()) =~= t);
    assert(body_comps(t) == body_comps(d).push(piece_comp(n)));
    let bc = body_comps(t);
    assert(components(s)[components(s).len() - 1] == piece_comp(n));
    assert(!is_dotdot(n));
    assert(n == ps[t.len() - 1]);
    let q = trim_back(d);
    lemma_trim_back_prefix(d);
    lemma_body_comps_trim(d);
    assert forall|k: int, i: int| 0 <= k < q.len() && 0 <= i < q[k].len() implies q[k][i] != '/' by {
        assert(q[k] == d[k]);
        assert(d[k] == ps[k]);
    }
    lemma_render_root_comps(q);
    assert(head_of_root(s));
    let p = parent(s)->0;
    assert(p == render(Head::Root, q));
    assert(components(s) =~= components(p).push(Comp::Normal(n)));
    assert forall|i: int| 0 <= i < components(p).len() implies #[trigger] components(p)[i]
        != Comp::Parent by {
        assert(components(p)[i] == components(s)[i]);
    }
}

spec fn head_of_root(s: Seq<char>) -> bool {
    crate::path::head_of(s) == Head::Root
}

/// Pushing a plain name adds it as the last component.
proof fn lemma_push_name(b: Seq<char>, n: Seq<char>)
    requires
        is_absolute(b),
        clean_name(n),
    ensures
        is_absolute(push(b, n)),
        components(push(b, n)) == components(b).push(Comp::Normal(n)),
{
    let x = b.drop_first();
    assert(n.len() > 0);
    assert(!is_absolute(n));
    lemma_abs_comps(b);
    let st = split_state(x);
    if b.last() != '/' {
        let y = x + seq!['/'];
        assert(y.drop_last() =~= x);
        assert(split_state(y) == (st.0.push(st.1), Seq::<char>::empty()));
        lemma_split_append(y, n);
        assert(Seq::<char>::empty() + n =~= n);
        let r = push(b, n);
        assert(r == b + seq!['/'] + n);
        assert(r.drop_first() =~= y + n);
        assert(pieces(y + n) =~= pieces(x).push(n));
        assert(pieces(x).push(n).drop_last() =~= pieces(x));
        lemma_abs_comps(r);
        assert(components(r) =~= components(b).push(Comp::Normal(n)));
    } else {
        assert(st.1.len() == 0) by {
            if x.len() > 0 {
                assert(x.last() == b.last());
            } else {
                assert(split_state(x) == (Seq::<Seq<char>>::empty(), Seq::<char>::empty()));
            }
        }
        lemma_split_append(x, n);
        assert(st.1 + n =~= n);
        let r = push(b, n);
        assert(r == b + n);
        assert(r.drop_first() =~= x + n);
        assert(pieces(x + n) =~= st.0.push(n));
        assert(pieces(x) =~= st.0.push(Seq::<char>::empty()));
        assert(pieces(x).drop_last() =~= st.0);
        assert(st.0.push(n).drop_last() =~= st.0);
        lemma_abs_comps(r);
        assert(components(r) =~= components(b).push(Comp::Normal(n)));
    }
}

/// Pushing remembered names back adds them as components, last remembered first.
proof fn lemma_push_rev_comps(b: Seq<char>, suffix: Seq<Seq<char>>)
    requires
        is_absolute(b),
        all_clean(suffix),
    ensures
        is_absolute(push_rev(b, suffix)),
        components(push_rev(b, suffix)) == components(b) + normals_rev(suffix),
    decreases suffix.len(),
{
    if suffix.len() == 0 {
        assert(components(b) + Seq::<Comp>::empty() =~= components(b));
    } else {
        assert(clean_name(suffix[suffix.len() - 1]));
        lemma_push_name(b, suffix.last());
        lemma_push_rev_comps(push(b, suffix.last()), suffix.drop_last());
        assert(components(b).push(Comp::Normal(suffix.last())) + normals_rev(suffix.drop_last())
            =~= components(b) + normals_rev(suffix));
    }
}


/// The walk under a root equal to `/`: where it stops, with the names it
/// remembered pushed back, is the place it started from; and it stops at `/`
/// or at the last place it asked about, which the disk said exists.
proof fn lemma_walk_from_slash(
    root: Seq<char>,
    cur: Seq<char>,
    suffix: Seq<Seq<char>>,
    ans: spec_fn(nat) -> bool,
    i: nat,
)
    requires
        path_eq(root, slash()),
        is_absolute(cur),
        no_parent_comps(cur),
        all_clean(suffix),
    ensures
        ({
            let w = walk(root, cur, suffix, ans, i);
            let asks = walk_asks(root, cur, ans, i);
            &&& is_absolute(w.0)
            &&& all_clean(w.1)
            &&& components(w.0) + normals_rev(w.1) == components(cur) + normals_rev(suffix)
            &&& w.2 == i + asks.len()
            &&& (path_eq(w.0, slash()) || (asks.len() > 0 && asks.last() == w.0 && ans(
                (w.2 - 1) as nat,
            )))
        }),
    decreases cur.len(),
{
    lemma_slash_comps();
    if path_eq(cur, root) {
    } else if ans(i) {
    } else {
        lemma_parent_step(cur);
        let p = parent(cur)->0;
        let n = file_name(cur)->0;
        let suffix2 = suffix.push(n);
        assert forall|k: int| 0 <= k < suffix2.len() implies clean_name(#[trigger] suffix2[k]) by {
            if k < suffix.len() {
                assert(suffix2[k] == suffix[k]);
            }
        }
        lemma_parent_shorter(cur);
        lemma_walk_from_slash(root, p, suffix2, ans, i + 1);
        let w = walk(root, p, suffix2, ans, i + 1);
        assert(suffix2.drop_last() =~= suffix);
        assert(normals_rev(suffix2) == seq![Comp::Normal(n)] + normals_rev(suffix));
        assert(components(p) + normals_rev(suffix2) =~= components(cur) + normals_rev(suffix));
        let rest = walk_asks(root, p, ans, i + 1);
        assert(walk_asks(root, cur, ans, i) == seq![cur] + rest);
        if rest.len() > 0 {
            assert((seq![cur] + rest).last() == rest.last());
        }
    }
}

/// Law: with the root `/` and a path without `..`, when the disk does not
/// change during the resolution and `/` exists, the result is the virtual path
/// (equal as a path): missing names are put back in their order.
pub proof fn lemma_resolve_under_slash_is_virtual(
    root: Seq<char>,
    path: Seq<char>,
    ans: spec_fn(nat) -> bool,
    d: spec_fn(Seq<char>) -> bool,
)
    requires
        path_eq(root, slash()),
        no_parent_comps(virtual_path(path)),
        forall|q: Seq<char>| path_eq(q, slash()) ==> #[trigger] d(q),
        answered_by(root, path, ans, d),
    ensures
        path_eq(resolve_replay(root, path, ans), virtual_path(path)),
{
    let virt = virtual_path(path);
    if !is_absolute(path) {
        lemma_push_absolute(slash(), path);
    }
    assert(translated_path(root, path) == virt);
    if let (Some(par), Some(fname)) = (parent(virt), file_name(virt)) {
        assert(!path_eq(virt, slash())) by {
            let ps = pieces(virt.drop_first());
            let t = trim_back(ps);
            lemma_abs_comps(virt);
            lemma_body_comps_trim(ps);
            lemma_trim_back_last(ps);
            assert(head_of_root(virt));
            assert(t.len() > 0);
            assert(t.drop_last().push(t.last()) =~= t);
            assert(body_comps(t) == body_comps(t.drop_last()).push(piece_comp(t.last())));
            lemma_slash_comps();
        }
        lemma_parent_step(virt);
        assert(all_clean(Seq::<Seq<char>>::empty()));
        lemma_walk_from_slash(root, par, Seq::empty(), ans, 0);
        let w = walk(root, par, Seq::empty(), ans, 0);
        let wa = walk_asks(root, par, ans, 0);
        let asks = resolve_asks(root, path, ans);
        assert(asks == wa.push(w.0));
        assert(asks[wa.len() as int] == w.0);
        assert(ans(w.2) == d(w.0));
        assert(d(w.0)) by {
            if !path_eq(w.0, slash()) {
                assert(asks[wa.len() - 1] == wa.last());
                assert(ans((wa.len() - 1) as nat) == d(asks[wa.len() - 1]));
            }
        }
        assert(normals_rev(Seq::<Seq<char>>::empty()) =~= Seq::<Comp>::empty());
        assert(components(par) + Seq::<Comp>::empty() =~= components(par));
        lemma_push_rev_comps(w.0, w.1);
        lemma_push_name(push_rev(w.0, w.1), fname);
        let resolved = push(push_rev(w.0, w.1), fname);
        assert(components(resolved) =~= components(virt));
    } else {
        assert(resolve_replay(root, path, ans) == virt);
    }
}


proof fn lemma_walk_count(
    root: Seq<char>,
    cur: Seq<char>,
    suffix: Seq<Seq<char>>,
    ans: spec_fn(nat) -> bool,
    i: nat,
)
    ensures
        walk(root, cur, suffix, ans, i).2 == i + walk_asks(root, cur, ans, i).len(),
    decreases cur.len(),
{
    if !path_eq(cur, root) && !ans(i) {
        let suffix2 = match file_name(cur) {
            Some(n) => suffix.push(n),
            None => suffix,
        };
        if let Some(p) = parent(cur) {
            lemma_parent_shorter(cur);
            lemma_walk_count(root, p, suffix2, ans, i + 1);
        }
    }
}

proof fn lemma_walk_same_disk(
    root: Seq<char>,
    cur: Seq<char>,
    suffix: Seq<Seq<char>>,
    f1: spec_fn(nat) -> bool,
    f2: spec_fn(nat) -> bool,
    i: nat,
    d: spec_fn(Seq<char>) -> bool,
)
    requires
        forall|k: int|
            0 <= k < walk_asks(root, cur, f1, i).len() ==> f1((i + k) as nat) == d(
                #[trigger] walk_asks(root, cur, f1, i)[k],
            ),
        forall|k: int|
            0 <= k < walk_asks(root, cur, f2, i).len() ==> f2((i + k) as nat) == d(
                #[trigger] walk_asks(root, cur, f2, i)[k],
            ),
    ensures
        walk(root, cur, suffix, f1, i) == walk(root, cur, suffix, f2, i),
        walk_asks(root, cur, f1, i) == walk_asks(root, cur, f2, i),
    decreases cur.len(),
{
    if !path_eq(cur, root) {
        assert(walk_asks(root, cur, f1, i)[0] == cur);
        assert(walk_asks(root, cur, f2, i)[0] == cur);
        assert(f1(i) == f2(i));
        if !f1(i) {
            let suffix2 = match file_name(cur) {
                Some(n) => suffix.push(n),
                None => suffix,
            };
            if let Some(p) = parent(cur) {
                lemma_parent_shorter(cur);
                let a1 = walk_asks(root, p, f1, i + 1);
                let a2 = walk_asks(root, p, f2, i + 1);
                assert forall|k: int| 0 <= k < a1.len() implies f1((i + 1 + k) as nat) == d(
                    #[trigger] a1[k],
                ) by {
                    assert(walk_asks(root, cur, f1, i)[k + 1] == a1[k]);
                }
                assert forall|k: int| 0 <= k < a2.len() implies f2((i + 1 + k) as nat) == d(
                    #[trigger] a2[k],
                ) by {
                    assert(walk_asks(root, cur, f2, i)[k + 1] == a2[k]);
                }
                lemma_walk_same_disk(root, p, suffix2, f1, f2, i + 1, d);
            }
        }
    }
}

/// Law: two resolutions of the same path under the same root, answered by the
/// same unchanging disk, ask the same questions and give the same result.
pub proof fn lemma_same_disk_same_resolution(
    root: Seq<char>,
    path: Seq<char>,
    f1: spec_fn(nat) -> bool,
    f2: spec_fn(nat) -> bool,
    d: spec_fn(Seq<char>) -> bool,
)
    requires
        answered_by(root, path, f1, d),
        answered_by(root, path, f2, d),
    ensures
        resolve_replay(root, path, f1) == resolve_replay(root, path, f2),
        resolve_asks(root, path, f1) == resolve_asks(root, path, f2),
{
    let translated = translated_path(root, path);
    if let (Some(par), Some(fname)) = (parent(translated), file_name(translated)) {
        let w1 = walk_asks(root, par, f1, 0);
        let w2 = walk_asks(root, par, f2, 0);
        assert forall|k: int| 0 <= k < w1.len() implies f1((0 + k) as nat) == d(#[trigger] w1[k]) by {
            assert(resolve_asks(root, path, f1)[k] == w1[k]);
        }
        assert forall|k: int| 0 <= k < w2.len() implies f2((0 + k) as nat) == d(#[trigger] w2[k]) by {
            assert(resolve_asks(root, path, f2)[k] == w2[k]);
        }
        lemma_walk_same_disk(root, par, Seq::empty(), f1, f2, 0, d);
        lemma_walk_count(root, par, Seq::empty(), f1, 0);
        lemma_walk_count(root, par, Seq::empty(), f2, 0);
        let w = walk(root, par, Seq::empty(), f1, 0);
        assert(resolve_asks(root, path, f1)[w1.len() as int] == w.0);
        assert(resolve_asks(root, path, f2)[w2.len() as int] == w.0);
        assert(f1(w.2) == f2(w.2));
    }
}

/// The recorded answers are those of the disk `d`.
pub open spec fn disk_says(asks: Seq<(Seq<char>, bool)>, d: spec_fn(Seq<char>) -> bool) -> bool {
    forall|j: int| 0 <= j < asks.len() ==> (#[trigger] asks[j]).1 == d(asks[j].0)
}

proof fn lemma_record_answered_by(
    asks: Seq<(Seq<char>, bool)>,
    root: Seq<char>,
    path: Seq<char>,
    f: spec_fn(nat) -> bool,
    d: spec_fn(Seq<char>) -> bool,
)
    requires
        asks_match(asks, root, path, f),
        disk_says(asks, d),
    ensures
        answered_by(root, path, f, d),
{
    assert forall|j: int| 0 <= j < resolve_asks(root, path, f).len() implies f(j as nat) == d(
        #[trigger] resolve_asks(root, path, f)[j],
    ) by {
        assert(asks[j].1 == d(asks[j].0));
    }
}

/// Law, for a call of `resolve_path_with_root`: with the root `/` and a path
/// without `..`, if the disk's recorded answers are those of an unchanging
/// disk on which `/` exists, the result is the virtual path (equal as a path).
pub proof fn lemma_call_under_slash_is_virtual(
    root: Seq<char>,
    path: Seq<char>,
    r: Seq<char>,
    asks: Seq<(Seq<char>, bool)>,
    f: spec_fn(nat) -> bool,
    d: spec_fn(Seq<char>) -> bool,
)
    requires
        r == resolve_replay(root, path, f),
        asks_match(asks, root, path, f),
        disk_says(asks, d),
        path_eq(root, slash()),
        no_parent_comps(virtual_path(path)),
        forall|q: Seq<char>| path_eq(q, slash()) ==> #[trigger] d(q),
    ensures
        path_eq(r, virtual_path(path)),
{
    lemma_record_answered_by(asks, root, path, f, d);
    lemma_resolve_under_slash_is_virtual(root, path, f, d);
}

/// Law, for two calls of `resolve_path_with_root` on the same root and path:
/// if both calls' recorded answers are those of the same unchanging disk, the
/// two calls asked the same questions and returned the same path.
pub proof fn lemma_calls_on_same_disk_agree(
    root: Seq<char>,
    path: Seq<char>,
    r1: Seq<char>,
    asks1: Seq<(Seq<char>, bool)>,
    f1: spec_fn(nat) -> bool,
    r2: Seq<char>,
    asks2: Seq<(Seq<char>, bool)>,
    f2: spec_fn(nat) -> bool,
    d: spec_fn(Seq<char>) -> bool,
)
    requires
        r1 == resolve_replay(root, path, f1),
        asks_match(asks1, root, path, f1),
        r2 == resolve_replay(root, path, f2),
        asks_match(asks2, root, path, f2),
        disk_says(asks1, d),
        disk_says(asks2, d),
    ensures
        r1 == r2,
        asks1 == asks2,
{
    lemma_record_answered_by(asks1, root, path, f1, d);
    lemma_record_answered_by(asks2, root, path, f2, d);
    lemma_same_disk_same_resolution(root, path, f1, f2, d);
    assert forall|j: int| 0 <= j < asks1.len() implies asks1[j] == asks2[j] by {
        assert(asks1[j].1 == d(asks1[j].0));
        assert(asks2[j].1 == d(asks2[j].0));
    }
    assert(asks1 =~= asks2);
}


/// Pieces without a separator.
pub open spec fn sep_free(q: Seq<Seq<char>>) -> bool {
    forall|k: int, i: int| 0 <= k < q.len() && 0 <= i < q[k].len() ==> q[k][i] != '/'
}

proof fn lemma_join_first(q: Seq<Seq<char>>)
    requires
        q.len() > 0,
        q[0].len() > 0,
    ensures
        join(q).len() > 0,
        join(q)[0] == q[0][0],
    decreases q.len(),
{
    if q.len() > 1 {
        lemma_join_first(q.drop_last());
        assert(q.drop_last()[0] == q[0]);
    }
}

proof fn lemma_split_join(y: Seq<char>, q: Seq<Seq<char>>)
    requires
        split_state(y).1.len() == 0,
        q.len() > 0,
        sep_free(q),
    ensures
        split_state(y + join(q)) == (split_state(y).0 + q.drop_last(), q.last()),
    decreases q.len(),
{
    if q.len() == 1 {
        lemma_split_append(y, q[0]);
        assert(split_state(y).1 + q[0] =~= q[0]);
        assert(q.drop_last() =~= Seq::<Seq<char>>::empty());
        assert(split_state(y).0 + q.drop_last() =~= split_state(y).0);
    } else {
        let d = q.drop_last();
        assert(sep_free(d)) by {
            assert forall|k: int, i: int| 0 <= k < d.len() && 0 <= i < d[k].len() implies d[k][i] != '/' by {
                assert(d[k] == q[k]);
            }
        }
        lemma_split_join(y, d);
        let z = y + join(d) + seq!['/'];
        assert(z.drop_last() =~= y + join(d));
        assert(split_state(z) == (split_state(y).0 + d.drop_last() + seq![d.last()], Seq::<char>::empty()));
        assert(split_state(y).0 + d.drop_last() + seq![d.last()] =~= split_state(y).0 + d);
        assert(q.last() == q[q.len() - 1]);
        lemma_split_append(z, q.last());
        assert(Seq::<char>::empty() + q.last() =~= q.last());
        assert(y + join(q) =~= z + q.last());
    }
}

proof fn lemma_body_comps_concat(a: Seq<Seq<char>>, b: Seq<Seq<char>>)
    ensures
        body_comps(a + b) == body_comps(a) + body_comps(b),
    decreases b.len(),
{
    if b.len() == 0 {
        assert(a + b =~= a);
        assert(body_comps(a) + Seq::<Comp>::empty() =~= body_comps(a));
    } else {
        lemma_body_comps_concat(a, b.drop_last());
        assert((a + b).drop_last() =~= a + b.drop_last());
        assert((a + b).last() == b.last());
        if !meaningless(b.last()) {
            assert(body_comps(a) + body_comps(b.drop_last()).push(piece_comp(b.last())) =~= (body_comps(a)
                + body_comps(b.drop_last())).push(piece_comp(b.last())));
        }
    }
}

/// Pushing separator-free pieces (the first not empty) adds their components.
proof fn lemma_push_pieces(b: Seq<char>, q: Seq<Seq<char>>)
    requires
        is_absolute(b),
        q.len() > 0,
        q[0].len() > 0,
        sep_free(q),
    ensures
        is_absolute(push(b, join(q))),
        components(push(b, join(q))) == components(b) + body_comps(q),
{
    lemma_join_first(q);
    let n = join(q);
    assert(!is_absolute(n));
    let x = b.drop_first();
    lemma_abs_comps(b);
    let st = split_state(x);
    let r = push(b, n);
    if b.last() != '/' {
        let y = x + seq!['/'];
        assert(y.drop_last() =~= x);
        assert(split_state(y) == (st.0.push(st.1), Seq::<char>::empty()));
        lemma_split_join(y, q);
        assert(r == b + seq!['/'] + n);
        assert(r.drop_first() =~= y + n);
        assert(pieces(y + n) =~= st.0.push(st.1) + q.drop_last().push(q.last()));
        assert(q.drop_last().push(q.last()) =~= q);
        assert(pieces(x) =~= st.0.push(st.1));
        lemma_body_comps_concat(pieces(x), q);
        lemma_abs_comps(r);
        assert(components(r) =~= components(b) + body_comps(q));
    } else {
        assert(st.1.len() == 0) by {
            if x.len() > 0 {
                assert(x.last() == b.last());
            } else {
                assert(split_state(x) == (Seq::<Seq<char>>::empty(), Seq::<char>::empty()));
            }
        }
        lemma_split_join(x, q);
        assert(r == b + n);
        assert(r.drop_first() =~= x + n);
        assert(pieces(x + n) =~= st.0 + q);
        assert(pieces(x) =~= st.0.push(Seq::<char>::empty()));
        lemma_body_comps_concat(st.0, q);
        assert(pieces(x).drop_last() =~= st.0);
        lemma_abs_comps(r);
        assert(components(r) =~= components(b) + body_comps(q));
    }
}

proof fn lemma_body_comps_front(qs: Seq<Seq<char>>)
    requires
        qs.len() > 0,
    ensures
        body_comps(qs) == (if meaningless(qs[0]) {
            Seq::<Comp>::empty()
        } else {
            seq![piece_comp(qs[0])]
        }) + body_comps(qs.drop_first()),
{
    let one = seq![qs[0]];
    assert(qs =~= one + qs.drop_first());
    lemma_body_comps_concat(one, qs.drop_first());
    assert(one.drop_last() =~= Seq::<Seq<char>>::empty());
    assert(body_comps(Seq::<Seq<char>>::empty()) =~= Seq::<Comp>::empty());
    if !meaningless(qs[0]) {
        assert(body_comps(one) =~= seq![piece_comp(qs[0])]);
    } else {
        assert(body_comps(one) =~= Seq::<Comp>::empty());
    }
}

proof fn lemma_skip_comps(qs: Seq<Seq<char>>, m: nat)
    requires
        m <= body_comps(qs).len(),
    ensures
        body_comps(skip_comps(qs, m)) == body_comps(qs).skip(m as int),
        exists|k: int| 0 <= k <= qs.len() && skip_comps(qs, m) == qs.skip(k),
    decreases qs.len(),
{
    if m == 0 || qs.len() == 0 {
        assert(qs.skip(0) =~= qs);
        assert(body_comps(qs).skip(0) =~= body_comps(qs));
    } else {
        lemma_body_comps_front(qs);
        let rest = qs.drop_first();
        if meaningless(qs[0]) {
            assert(body_comps(qs) =~= body_comps(rest));
            lemma_skip_comps(rest, m);
        } else {
            assert(body_comps(qs) =~= seq![piece_comp(qs[0])] + body_comps(rest));
            lemma_skip_comps(rest, (m - 1) as nat);
            assert(body_comps(qs).skip(m as int) =~= body_comps(rest).skip(m - 1));
        }
        let k = choose|k: int| 0 <= k <= rest.len() && skip_comps(rest, if meaningless(qs[0]) { m } else { (m - 1) as nat }) == rest.skip(k);
        assert(rest.skip(k) =~= qs.skip(k + 1));
    }
}

proof fn lemma_trim_front_comps(qs: Seq<Seq<char>>)
    ensures
        body_comps(trim_front(qs)) == body_comps(qs),
        exists|k: int| 0 <= k <= qs.len() && trim_front(qs) == qs.skip(k),
        trim_front(qs).len() > 0 ==> !meaningless(trim_front(qs)[0]),
    decreases qs.len(),
{
    if qs.len() > 0 && meaningless(qs[0]) {
        lemma_body_comps_front(qs);
        lemma_trim_front_comps(qs.drop_first());
        let k = choose|k: int| 0 <= k <= qs.drop_first().len() && trim_front(qs.drop_first()) == qs.drop_first().skip(k);
        assert(qs.drop_first().skip(k) =~= qs.skip(k + 1));
    } else {
        assert(qs.skip(0) =~= qs);
    }
}


proof fn lemma_push_empty(b: Seq<char>)
    requires
        is_absolute(b),
    ensures
        is_absolute(push(b, Seq::empty())),
        components(push(b, Seq::empty())) == components(b),
{
    let e = Seq::<char>::empty();
    let x = b.drop_first();
    lemma_abs_comps(b);
    if b.last() != '/' {
        let r = push(b, e);
        assert(r =~= b + seq!['/']);
        assert(r.drop_first() =~= x + seq!['/']);
        assert((x + seq!['/']).drop_last() =~= x);
        let st = split_state(x);
        assert(split_state(x + seq!['/']) == (st.0.push(st.1), e));
        assert(pieces(x + seq!['/']) =~= st.0.push(st.1).push(e));
        assert(pieces(x) =~= st.0.push(st.1));
        assert(pieces(x + seq!['/']).drop_last() =~= pieces(x));
        lemma_abs_comps(r);
    } else {
        assert(push(b, e) =~= b);
    }
}

/// What `strip_prefix` leaves of `s` below `base`, when the components of `s`
/// are those of `base` followed by `tail`: separator-free pieces holding `tail`.
proof fn lemma_strip_pieces(s: Seq<char>, base: Seq<char>, tail: Seq<Comp>) -> (q: Seq<Seq<char>>)
    requires
        is_absolute(s),
        is_absolute(base),
        components(s) == components(base) + tail,
    ensures
        strip_prefix(s, base) == Some(join(q)),
        sep_free(q),
        body_comps(q) == tail,
        q.len() > 0 ==> !meaningless(q[0]),
{
    lemma_abs_comps(s);
    lemma_abs_comps(base);
    let cs = components(s);
    let cb = components(base);
    assert(cs.take(cb.len() as int) =~= cb);
    let qs = pieces(s.drop_first());
    let bb = body_comps(pieces(base.drop_first()));
    assert(cs.drop_first() =~= body_comps(qs));
    assert((cb + tail).drop_first() =~= bb + tail);
    assert(body_comps(qs) =~= bb + tail);
    let m = (cb.len() - 1) as nat;
    assert(head_of_root(s));
    lemma_skip_comps(qs, m);
    let sk = skip_comps(qs, m);
    assert(body_comps(qs).skip(m as int) =~= tail);
    lemma_trim_front_comps(sk);
    let tf = trim_front(sk);
    lemma_body_comps_trim(tf);
    lemma_trim_back_prefix(tf);
    let q = trim_back(tf);
    lemma_pieces_no_sep(s.drop_first());
    let k1 = choose|k: int| 0 <= k <= qs.len() && sk == qs.skip(k);
    let k2 = choose|k: int| 0 <= k <= sk.len() && tf == sk.skip(k);
    assert forall|k: int, i: int| 0 <= k < q.len() && 0 <= i < q[k].len() implies q[k][i] != '/' by {
        assert(q[k] == tf[k]);
        assert(tf[k] == sk[k + k2]);
        assert(sk[k + k2] == qs[k + k2 + k1]);
    }
    if q.len() > 0 {
        assert(q[0] == tf[0]);
    }
    q
}

proof fn lemma_body_comps_no_root(qs: Seq<Seq<char>>)
    ensures
        forall|i: int| 0 <= i < body_comps(qs).len() ==> #[trigger] body_comps(qs)[i] != Comp::Root,
    decreases qs.len(),
{
    if qs.len() > 0 {
        lemma_body_comps_no_root(qs.drop_last());
        if !meaningless(qs.last()) {
            let b = body_comps(qs.drop_last());
            assert forall|i: int| 0 <= i < body_comps(qs).len() implies #[trigger] body_comps(qs)[i]
                != Comp::Root by {
                if i < b.len() {
                    assert(body_comps(qs)[i] == b[i]);
                }
            }
        }
    }
}

/// Law, for a call of `resolve_path_with_root`: under any root that exists
/// (with its ancestors) on an unchanging disk, a path without `..` resolves to
/// its virtual path (equal as a path).
pub proof fn lemma_call_under_existing_root_is_virtual(
    root: Seq<char>,
    path: Seq<char>,
    r: Seq<char>,
    asks: Seq<(Seq<char>, bool)>,
    f: spec_fn(nat) -> bool,
    d: spec_fn(Seq<char>) -> bool,
)
    requires
        r == resolve_replay(root, path, f),
        asks_match(asks, root, path, f),
        disk_says(asks, d),
        components(root).len() > 0,
        no_parent_comps(virtual_path(path)),
        forall|q: Seq<char>| at_or_above(q, root) ==> #[trigger] d(q),
    ensures
        path_eq(r, virtual_path(path)),
{
    lemma_record_answered_by(asks, root, path, f, d);
    lemma_resolve_under_existing_root_is_virtual(root, path, f, d);
}


proof fn lemma_join_head(q: Seq<Seq<char>>)
    requires
        q.len() > 0,
    ensures
        join(q).len() >= q[0].len(),
        forall|i: int| 0 <= i < q[0].len() ==> join(q)[i] == q[0][i],
        q.len() > 1 ==> join(q).len() > q[0].len() && join(q)[q[0].len() as int] == '/',
    decreases q.len(),
{
    if q.len() > 1 {
        let d = q.drop_last();
        lemma_join_head(d);
        assert(d[0] == q[0]);
        assert(join(q) == join(d) + seq!['/'] + q.last());
        if d.len() == 1 {
            assert(join(d) == q[0]);
        }
    }
}

/// The first piece of a string is its beginning, up to the first `/`.
proof fn lemma_first_piece(s: Seq<char>)
    ensures
        pieces(s).len() > 0,
        pieces(s)[0].len() <= s.len(),
        forall|i: int| 0 <= i < pieces(s)[0].len() ==> s[i] == pieces(s)[0][i],
        pieces(s)[0].len() < s.len() ==> s[pieces(s)[0].len() as int] == '/',
{
    lemma_join_pieces(s);
    lemma_join_head(pieces(s));
    if pieces(s).len() == 1 {
        assert(join(pieces(s)) == pieces(s)[0]);
    }
}

/// The components of a path are those of its head followed by those of its body.
proof fn lemma_comps(s: Seq<char>)
    ensures
        components(s) == head_comps(head_of(s)) + body_comps(pieces(body_of(s))),
{
}

proof fn lemma_pieces_empty()
    ensures
        pieces(Seq::<char>::empty()) == seq![Seq::<char>::empty()],
        body_comps(pieces(Seq::<char>::empty())) == Seq::<Comp>::empty(),
{
    assert(split_state(Seq::<char>::empty()) == (Seq::<Seq<char>>::empty(), Seq::<char>::empty()));
    let ps = pieces(Seq::<char>::empty());
    assert(ps =~= seq![Seq::<char>::empty()]);
    assert(ps.drop_last() =~= Seq::<Seq<char>>::empty());
    assert(body_comps(Seq::<Seq<char>>::empty()) =~= Seq::<Comp>::empty());
    assert(body_comps(ps) == body_comps(ps.drop_last()));
}

/// `render(h, q)` for pieces `q` taken from the front of a path with head `h`:
/// it keeps the head, and its components are the head's and those of `q`.
proof fn lemma_render_prefix(s: Seq<char>, q: Seq<Seq<char>>)
    requires
        q.len() <= pieces(body_of(s)).len(),
        q == pieces(body_of(s)).take(q.len() as int),
        head_of(s) == Head::Cur ==> body_of(s).len() > 0,
        head_of(s) == Head::Plain ==> s.len() > 0,
    ensures
        head_of(render(head_of(s), q)) == head_of(s),
        components(render(head_of(s), q)) == head_comps(head_of(s)) + body_comps(q),
        head_of(s) != Head::Plain ==> render(head_of(s), q).len() > 0,
{
    let h = head_of(s);
    let b = body_of(s);
    let ps = pieces(b);
    lemma_pieces_no_sep(b);
    lemma_first_piece(b);
    assert(sep_free(q)) by {
        assert forall|k: int, i: int| 0 <= k < q.len() && 0 <= i < q[k].len() implies q[k][i] != '/' by {
            assert(q[k] == ps[k]);
        }
    }
    let r = render(h, q);
    lemma_pieces_empty();
    if q.len() > 0 {
        lemma_pieces_join(q);
        lemma_join_head(q);
        assert(q[0] == ps[0]);
    }
    if h == Head::Root {
        lemma_render_root_comps(q);
        assert(r.len() > 0);
    } else if h == Head::Cur {
        assert(b[0] == '/') by {
            assert(s.len() > 1);
            assert(b[0] == s[1]);
        }
        assert(ps[0].len() == 0);
        assert(r == seq!['.'] + join(q));
        if q.len() == 0 {
            assert(join(q) == Seq::<char>::empty());
            assert(r =~= seq!['.']);
            assert(body_of(r) =~= Seq::<char>::empty());
        } else if q.len() == 1 {
            assert(join(q) == q[0]);
            assert(r =~= seq!['.']);
            assert(body_of(r) =~= Seq::<char>::empty());
            assert(q =~= seq![Seq::<char>::empty()]);
        } else {
            assert(join(q)[0] == '/');
            assert(r[1] == '/');
            assert(body_of(r) =~= join(q));
        }
    } else {
        assert(r == join(q));
        if q.len() == 0 {
            assert(join(q) == Seq::<char>::empty());
        } else {
            assert(s[0] != '/');
            assert(ps[0].len() > 0) by {
                if ps[0].len() == 0 {
                    assert(s[0] == '/');
                }
            }
            assert(r[0] == s[0]);
            if s[0] == '.' {
                assert(s.len() > 1 && s[1] != '/');
                assert(ps[0].len() > 1) by {
                    if ps[0].len() == 1 {
                        assert(s[1] == '/');
                    }
                }
                assert(r[1] == s[1]);
            }
            assert(head_of(r) == Head::Plain);
        }
    }
}

/// A path whose last component is a name has a parent and that last name;
/// it is the name pushed on the parent, which keeps the head.
proof fn lemma_parent_step_any(s: Seq<char>)
    requires
        components(s).len() > head_comps(head_of(s)).len(),
        components(s).last() != Comp::Parent,
    ensures
        parent(s) is Some,
        file_name(s) is Some,
        head_of(parent(s)->0) == head_of(s),
        parent(s)->0.len() > 0 || head_of(s) == Head::Plain,
        clean_name(file_name(s)->0),
        components(s) == components(parent(s)->0).push(Comp::Normal(file_name(s)->0)),
{
    let h = head_of(s);
    let b = body_of(s);
    let ps = pieces(b);
    let t = trim_back(ps);
    lemma_comps(s);
    lemma_body_comps_trim(ps);
    lemma_trim_back_prefix(ps);
    lemma_trim_back_last(ps);
    lemma_pieces_no_sep(b);
    if t.len() == 0 {
        assert(body_comps(t) =~= Seq::<Comp>::empty());
        assert(false);
    }
    let n = t.last();
    let d = t.drop_last();
    assert(t.drop_last().push(t.last()) =~= t);
    assert(body_comps(t) == body_comps(d).push(piece_comp(n)));
    assert(components(s).last() == piece_comp(n));
    assert(!is_dotdot(n));
    assert(n == ps[t.len() - 1]);
    let q = trim_back(d);
    lemma_trim_back_prefix(d);
    lemma_body_comps_trim(d);
    assert(q =~= ps.take(q.len() as int));
    assert(h == Head::Cur ==> b.len() > 0) by {
        if h == Head::Cur && b.len() == 0 {
            lemma_pieces_empty();
            assert(t.len() == 0);
        }
    }
    assert(h == Head::Plain ==> s.len() > 0) by {
        if h == Head::Plain && s.len() == 0 {
            lemma_pieces_empty();
        }
    }
    lemma_render_prefix(s, q);
    let p = parent(s)->0;
    assert(p == render(h, q));
    assert(components(s) =~= components(p).push(Comp::Normal(n)));
}


/// Pushing separator-free pieces (the first a name) on any path keeps its head
/// and adds their components.
proof fn lemma_push_pieces_any(b: Seq<char>, q: Seq<Seq<char>>)
    requires
        q.len() > 0,
        !meaningless(q[0]),
        sep_free(q),
    ensures
        head_of(push(b, join(q))) == head_of(b),
        components(push(b, join(q))) == components(b) + body_comps(q),
        push(b, join(q)).len() > 0,
{
    lemma_join_first(q);
    lemma_join_head(q);
    lemma_pieces_join(q);
    let n = join(q);
    assert(!is_absolute(n));
    let r = push(b, n);
    lemma_comps(b);
    lemma_comps(r);
    if b.len() == 0 {
        assert(r =~= n);
        lemma_pieces_empty();
        assert(head_of(b) == Head::Plain);
        assert(head_of(r) == Head::Plain) by {
            if n[0] == '.' {
                assert(q[0].len() > 1) by {
                    if q[0].len() == 1 {
                        assert(q[0] =~= seq!['.']);
                    }
                }
                assert(n[1] == q[0][1]);
            }
        }
        assert(components(b) =~= Seq::<Comp>::empty());
        assert(components(b) + body_comps(q) =~= body_comps(q));
        return;
    }
    let h = head_of(b);
    let x = body_of(b);
    let st = split_state(x);
    if b.last() != '/' {
        assert(r == b + seq!['/'] + n);
        assert(head_of(r) == h) by {
            if b.len() == 1 {
                assert(r[1] == '/');
            } else {
                assert(r[0] == b[0] && r[1] == b[1]);
            }
        }
        assert(body_of(r) =~= x + seq!['/'] + n);
        let y = x + seq!['/'];
        assert(y.drop_last() =~= x);
        assert(split_state(y) == (st.0.push(st.1), Seq::<char>::empty()));
        lemma_split_join(y, q);
        assert(x + seq!['/'] + n =~= y + n);
        assert(pieces(y + n) =~= st.0.push(st.1) + q.drop_last().push(q.last()));
        assert(q.drop_last().push(q.last()) =~= q);
        assert(pieces(x) =~= st.0.push(st.1));
        lemma_body_comps_concat(pieces(x), q);
        assert(components(r) =~= components(b) + body_comps(q));
    } else {
        assert(r == b + n);
        assert(head_of(r) == h) by {
            if b.len() >= 2 {
                assert(r[0] == b[0] && r[1] == b[1]);
            } else {
                assert(b[0] == '/');
            }
        }
        assert(body_of(r) =~= x + n);
        assert(st.1.len() == 0) by {
            if x.len() > 0 {
                assert(x.last() == b.last());
            } else {
                assert(split_state(x) == (Seq::<Seq<char>>::empty(), Seq::<char>::empty()));
            }
        }
        lemma_split_join(x, q);
        assert(st.1 + n =~= n);
        assert(pieces(x + n) =~= st.0 + q);
        assert(pieces(x) =~= st.0.push(Seq::<char>::empty()));
        lemma_body_comps_concat(st.0, q);
        assert(pieces(x).drop_last() =~= st.0);
        assert(components(r) =~= components(b) + body_comps(q));
    }
}

proof fn lemma_push_name_any(b: Seq<char>, n: Seq<char>)
    requires
        clean_name(n),
    ensures
        head_of(push(b, n)) == head_of(b),
        components(push(b, n)) == components(b).push(Comp::Normal(n)),
        push(b, n).len() > 0,
{
    let q = seq![n];
    assert(join(q) == n);
    assert(sep_free(q));
    lemma_push_pieces_any(b, q);
    assert(q.drop_last() =~= Seq::<Seq<char>>::empty());
    assert(body_comps(Seq::<Seq<char>>::empty()) =~= Seq::<Comp>::empty());
    assert(body_comps(q) =~= seq![Comp::Normal(n)]);
    assert(components(b) + seq![Comp::Normal(n)] =~= components(b).push(Comp::Normal(n)));
}

proof fn lemma_push_empty_any(b: Seq<char>)
    requires
        b.len() > 0,
    ensures
        head_of(push(b, Seq::empty())) == head_of(b),
        components(push(b, Seq::empty())) == components(b),
        push(b, Seq::<char>::empty()).len() > 0,
{
    let e = Seq::<char>::empty();
    let x = body_of(b);
    lemma_comps(b);
    let r = push(b, e);
    lemma_comps(r);
    if b.last() != '/' {
        assert(r =~= b + seq!['/']);
        assert(head_of(r) == head_of(b)) by {
            if b.len() == 1 {
                assert(r[1] == '/');
            } else {
                assert(r[0] == b[0] && r[1] == b[1]);
            }
        }
        assert(body_of(r) =~= x + seq!['/']);
        assert((x + seq!['/']).drop_last() =~= x);
        let st = split_state(x);
        assert(split_state(x + seq!['/']) == (st.0.push(st.1), e));
        assert(pieces(x + seq!['/']) =~= st.0.push(st.1).push(e));
        assert(pieces(x) =~= st.0.push(st.1));
        assert(pieces(x + seq!['/']).drop_last() =~= pieces(x));
    } else {
        assert(r =~= b);
    }
}

proof fn lemma_push_rev_any(b: Seq<char>, suffix: Seq<Seq<char>>)
    requires
        all_clean(suffix),
    ensures
        head_of(push_rev(b, suffix)) == head_of(b),
        components(push_rev(b, suffix)) == components(b) + normals_rev(suffix),
        suffix.len() > 0 ==> push_rev(b, suffix).len() > 0,
    decreases suffix.len(),
{
    if suffix.len() == 0 {
        assert(components(b) + Seq::<Comp>::empty() =~= components(b));
    } else {
        assert(clean_name(suffix[suffix.len() - 1]));
        lemma_push_name_any(b, suffix.last());
        lemma_push_rev_any(push(b, suffix.last()), suffix.drop_last());
        assert(components(b).push(Comp::Normal(suffix.last())) + normals_rev(suffix.drop_last())
            =~= components(b) + normals_rev(suffix));
        if suffix.drop_last().len() == 0 {
            assert(push_rev(push(b, suffix.last()), suffix.drop_last()) == push(b, suffix.last()));
        }
    }
}


proof fn lemma_strip_pieces_any(s: Seq<char>, base: Seq<char>, tail: Seq<Comp>) -> (q: Seq<Seq<char>>)
    requires
        head_of(s) == head_of(base),
        components(base).len() > 0,
        components(s) == components(base) + tail,
    ensures
        strip_prefix(s, base) == Some(join(q)),
        sep_free(q),
        body_comps(q) == tail,
        q.len() > 0 ==> !meaningless(q[0]),
{
    lemma_comps(s);
    lemma_comps(base);
    let h = head_of(s);
    let hc = head_comps(h);
    let cs = components(s);
    let cb = components(base);
    assert(cs.take(cb.len() as int) =~= cb);
    let qs = pieces(body_of(s));
    let bb = body_comps(pieces(body_of(base)));
    assert(cs.skip(hc.len() as int) =~= body_comps(qs));
    assert((cb + tail).skip(hc.len() as int) =~= bb + tail);
    assert(body_comps(qs) =~= bb + tail);
    let m = (cb.len() - hc.len()) as nat;
    lemma_skip_comps(qs, m);
    let sk = skip_comps(qs, m);
    assert(body_comps(qs).skip(m as int) =~= tail);
    lemma_trim_front_comps(sk);
    let tf = trim_front(sk);
    lemma_body_comps_trim(tf);
    lemma_trim_back_prefix(tf);
    let q = trim_back(tf);
    lemma_pieces_no_sep(body_of(s));
    let k1 = choose|k: int| 0 <= k <= qs.len() && sk == qs.skip(k);
    let k2 = choose|k: int| 0 <= k <= sk.len() && tf == sk.skip(k);
    assert forall|k: int, i: int| 0 <= k < q.len() && 0 <= i < q[k].len() implies q[k][i] != '/' by {
        assert(q[k] == tf[k]);
        assert(tf[k] == sk[k + k2]);
        assert(sk[k + k2] == qs[k + k2 + k1]);
    }
    if q.len() > 0 {
        assert(q[0] == tf[0]);
    }
    q
}

/// The components of `root` begin those of `cur`, and the rest are names.
pub open spec fn below_by_names(cur: Seq<char>, root: Seq<char>) -> bool {
    &&& head_of(cur) == head_of(root)
    &&& components(root).len() <= components(cur).len()
    &&& components(cur).take(components(root).len() as int) == components(root)
    &&& forall|j: int|
        components(root).len() <= j < components(cur).len() ==> #[trigger] components(cur)[j]
            != Comp::Parent
}

/// The upward walk from below a root: it stops at the root at the latest.
proof fn lemma_walk_below_any(
    root: Seq<char>,
    cur: Seq<char>,
    suffix: Seq<Seq<char>>,
    ans: spec_fn(nat) -> bool,
    i: nat,
)
    requires
        below_by_names(cur, root),
        all_clean(suffix),
    ensures
        ({
            let w = walk(root, cur, suffix, ans, i);
            let asks = walk_asks(root, cur, ans, i);
            &&& below_by_names(w.0, root)
            &&& all_clean(w.1)
            &&& components(w.0) + normals_rev(w.1) == components(cur) + normals_rev(suffix)
            &&& w.2 == i + asks.len()
            &&& (path_eq(w.0, root) || (asks.len() > 0 && asks.last() == w.0 && ans(
                (w.2 - 1) as nat,
            )))
        }),
    decreases cur.len(),
{
    lemma_comps(root);
    lemma_comps(cur);
    if path_eq(cur, root) {
    } else if ans(i) {
    } else {
        let rl = components(root).len();
        assert(components(cur).len() > rl) by {
            if components(cur).len() == rl {
                assert(components(cur) =~= components(cur).take(rl as int));
            }
        }
        assert(components(cur).last() == components(cur)[components(cur).len() - 1]);
        lemma_parent_step_any(cur);
        let p = parent(cur)->0;
        let n = file_name(cur)->0;
        let suffix2 = suffix.push(n);
        assert forall|k: int| 0 <= k < suffix2.len() implies clean_name(#[trigger] suffix2[k]) by {
            if k < suffix.len() {
                assert(suffix2[k] == suffix[k]);
            }
        }
        assert(components(p) =~= components(cur).drop_last());
        assert(components(p).take(rl as int) =~= components(root));
        assert forall|j: int| rl <= j < components(p).len() implies #[trigger] components(p)[j]
            != Comp::Parent by {
            assert(components(p)[j] == components(cur)[j]);
        }
        lemma_parent_shorter(cur);
        lemma_walk_below_any(root, p, suffix2, ans, i + 1);
        assert(suffix2.drop_last() =~= suffix);
        assert(normals_rev(suffix2) == seq![Comp::Normal(n)] + normals_rev(suffix));
        assert(components(p) + normals_rev(suffix2) =~= components(cur) + normals_rev(suffix));
        let rest = walk_asks(root, p, ans, i + 1);
        assert(walk_asks(root, cur, ans, i) == seq![cur] + rest);
        if rest.len() > 0 {
            assert((seq![cur] + rest).last() == rest.last());
        }
    }
}

/// `q` stands at or above `root`: its components, of which there is at least
/// one, begin those of `root`.
pub open spec fn at_or_above(q: Seq<char>, root: Seq<char>) -> bool {
    &&& components(q).len() > 0
    &&& components(q).len() <= components(root).len()
    &&& components(root).take(components(q).len() as int) == components(q)
}

proof fn lemma_comps_nonempty(s: Seq<char>)
    requires
        components(s).len() > 0,
    ensures
        s.len() > 0,
{
    if s.len() == 0 {
        lemma_pieces_empty();
        lemma_comps(s);
    }
}

#[verifier::rlimit(40)]
proof fn lemma_virtual_with_names(
    root: Seq<char>,
    path: Seq<char>,
    ans: spec_fn(nat) -> bool,
    d: spec_fn(Seq<char>) -> bool,
    names: Seq<Comp>,
    q0: Seq<Seq<char>>,
)
    requires
        components(root).len() > 0,
        !path_eq(root, slash()),
        no_parent_comps(virtual_path(path)),
        forall|q: Seq<char>| at_or_above(q, root) ==> #[trigger] d(q),
        answered_by(root, path, ans, d),
        is_absolute(virtual_path(path)),
        components(virtual_path(path)) == components(slash()) + names,
        strip_prefix(virtual_path(path), slash()) == Some(join(q0)),
        sep_free(q0),
        body_comps(q0) == names,
        q0.len() > 0 ==> !meaningless(q0[0]),
        q0.len() > 0,
    ensures
        path_eq(resolve_replay(root, path, ans), virtual_path(path)),
{
    let virt = virtual_path(path);
    lemma_slash_comps();
    lemma_comps(root);
    lemma_comps_nonempty(root);
    let rl = components(root).len();
    let hc = head_comps(head_of(root));
    let rel = join(q0);
    let translated = translated_path(root, path);
    assert(translated == push(root, rel));
        lemma_push_pieces_any(root, q0);
        lemma_body_comps_front(q0);
        assert(components(translated) == components(root) + names);
        assert(components(translated).take(rl as int) =~= components(root));
        assert forall|j: int| rl <= j < components(translated).len() implies #[trigger] components(
            translated,
        )[j] != Comp::Parent by {
            assert(components(translated)[j] == names[j - rl]);
            assert(components(virt)[j - rl + 1] == names[j - rl]);
        }
        assert(components(translated).last() == components(translated)[components(
            translated,
        ).len() - 1]);
        lemma_comps(translated);
        lemma_parent_step_any(translated);
        let par = parent(translated)->0;
        let fname = file_name(translated)->0;
        assert(components(par) =~= components(translated).drop_last());
        assert(below_by_names(par, root)) by {
            assert(components(par).take(rl as int) =~= components(root));
            assert forall|j: int| rl <= j < components(par).len() implies #[trigger] components(
                par,
            )[j] != Comp::Parent by {
                assert(components(par)[j] == components(translated)[j]);
            }
        }
        assert(all_clean(Seq::<Seq<char>>::empty()));
        lemma_walk_below_any(root, par, Seq::empty(), ans, 0);
        let w = walk(root, par, Seq::empty(), ans, 0);
        let wa = walk_asks(root, par, ans, 0);
        let asks = resolve_asks(root, path, ans);
        assert(asks == wa.push(w.0));
        assert(asks[wa.len() as int] == w.0);
        assert(ans(w.2) == d(w.0));
        assert(d(w.0)) by {
            if path_eq(w.0, root) {
                assert(components(root).take(components(w.0).len() as int) =~= components(w.0));
                assert(at_or_above(w.0, root));
            } else {
                assert(asks[wa.len() - 1] == wa.last());
                assert(ans((wa.len() - 1) as nat) == d(asks[wa.len() - 1]));
            }
        }
        assert(normals_rev(Seq::<Seq<char>>::empty()) =~= Seq::<Comp>::empty());
        assert(components(par) + Seq::<Comp>::empty() =~= components(par));
        lemma_push_rev_any(w.0, w.1);
        lemma_push_name_any(push_rev(w.0, w.1), fname);
        let resolved = push(push_rev(w.0, w.1), fname);
        assert(components(resolved) =~= components(root) + names);
        let q1 = lemma_strip_pieces_any(resolved, root, names);
        lemma_push_pieces(slash(), q1);
        assert(components(push(slash(), join(q1))) =~= components(virt));
        assert(resolve_replay(root, path, ans) == push(slash(), join(q1)));
}

#[verifier::rlimit(40)]
proof fn lemma_virtual_without_names(
    root: Seq<char>,
    path: Seq<char>,
    ans: spec_fn(nat) -> bool,
    d: spec_fn(Seq<char>) -> bool,
    names: Seq<Comp>,
    q0: Seq<Seq<char>>,
)
    requires
        components(root).len() > 0,
        !path_eq(root, slash()),
        no_parent_comps(virtual_path(path)),
        forall|q: Seq<char>| at_or_above(q, root) ==> #[trigger] d(q),
        answered_by(root, path, ans, d),
        is_absolute(virtual_path(path)),
        components(virtual_path(path)) == components(slash()) + names,
        strip_prefix(virtual_path(path), slash()) == Some(join(q0)),
        sep_free(q0),
        body_comps(q0) == names,
        q0.len() > 0 ==> !meaningless(q0[0]),
        q0.len() == 0,
    ensures
        path_eq(resolve_replay(root, path, ans), virtual_path(path)),
{
    let virt = virtual_path(path);
    lemma_slash_comps();
    lemma_comps(root);
    lemma_comps_nonempty(root);
    let rl = components(root).len();
    let hc = head_comps(head_of(root));
    let rel = join(q0);
    let translated = translated_path(root, path);
    assert(translated == push(root, rel));
        assert(names =~= Seq::<Comp>::empty());
        assert(rel == Seq::<char>::empty());
        lemma_push_empty_any(root);
        lemma_comps(translated);
        assert(components(translated) == components(root));
        let tb = trim_back(pieces(body_of(translated)));
        lemma_body_comps_trim(pieces(body_of(translated)));
        lemma_trim_back_last(pieces(body_of(translated)));
        if rl == hc.len() || components(root).last() == Comp::Parent {
            assert(file_name(translated) is None) by {
                if tb.len() > 0 {
                    assert(tb.drop_last().push(tb.last()) =~= tb);
                    assert(body_comps(tb) == body_comps(tb.drop_last()).push(piece_comp(tb.last())));
                    assert(components(translated).last() == piece_comp(tb.last()));
                    if rl == hc.len() {
                        assert(components(translated).len() > hc.len());
                    }
                    assert(is_dotdot(tb.last()));
                }
            }
            assert(resolve_replay(root, path, ans) == virt);
            return;
        }
        assert(components(translated).last() == components(root)[rl - 1]);
        lemma_parent_step_any(translated);
        let par = parent(translated)->0;
        let fname = file_name(translated)->0;
        assert(components(par) =~= components(root).drop_last());
        assert(!path_eq(par, root));
        assert(walk_asks(root, par, ans, 0)[0] == par);
        assert(resolve_asks(root, path, ans)[0] == par);
        assert(ans(0) == d(par));
        let w = walk(root, par, Seq::empty(), ans, 0);
        lemma_comps(par);
        if components(par).len() > 0 {
            assert(at_or_above(par, root)) by {
                assert(components(root).take(components(par).len() as int) =~= components(par));
            }
            assert(w == (par, Seq::<Seq<char>>::empty(), 1nat));
            assert(walk_asks(root, par, ans, 0) =~= seq![par]);
            assert(resolve_asks(root, path, ans)[1] == par);
            assert(ans(1) == d(par));
        } else {
            let tp = trim_back(pieces(body_of(par)));
            lemma_body_comps_trim(pieces(body_of(par)));
            lemma_trim_back_last(pieces(body_of(par)));
            assert(head_of(par) == Head::Plain);
            assert(tp.len() == 0) by {
                if tp.len() > 0 {
                    assert(tp.drop_last().push(tp.last()) =~= tp);
                    assert(body_comps(tp) == body_comps(tp.drop_last()).push(piece_comp(tp.last())));
                }
            }
            assert(file_name(par) is None);
            assert(parent(par) is None);
            assert(w == (par, Seq::<Seq<char>>::empty(), 1nat));
        }
        assert(push_rev(par, Seq::<Seq<char>>::empty()) == par);
        lemma_push_name_any(par, fname);
        let resolved = push(par, fname);
        assert(components(resolved) =~= components(root) + Seq::<Comp>::empty());
        let q1 = lemma_strip_pieces_any(resolved, root, Seq::<Comp>::empty());
        if q1.len() > 0 {
            lemma_body_comps_front(q1);
            assert(false);
        }
        assert(join(q1) == Seq::<char>::empty());
        lemma_push_empty(slash());
        assert(resolve_replay(root, path, ans) == push(slash(), join(q1)));
        assert(components(virt) =~= seq![Comp::Root]);
}

/// Law: under any root that exists (with its ancestors) on an unchanging disk,
/// a path without `..` resolves to its virtual path (equal as a path): missing
/// names are put back in their order. The root may be relative and may hold `..`.
pub proof fn lemma_resolve_under_existing_root_is_virtual(
    root: Seq<char>,
    path: Seq<char>,
    ans: spec_fn(nat) -> bool,
    d: spec_fn(Seq<char>) -> bool,
)
    requires
        components(root).len() > 0,
        no_parent_comps(virtual_path(path)),
        forall|q: Seq<char>| at_or_above(q, root) ==> #[trigger] d(q),
        answered_by(root, path, ans, d),
    ensures
        path_eq(resolve_replay(root, path, ans), virtual_path(path)),
{
    let virt = virtual_path(path);
    if !is_absolute(path) {
        lemma_push_absolute(slash(), path);
    }
    lemma_slash_comps();
    lemma_comps(root);
    lemma_abs_comps(virt);
    lemma_comps_nonempty(root);
    if path_eq(root, slash()) {
        assert forall|q: Seq<char>| path_eq(q, slash()) implies #[trigger] d(q) by {
            assert(components(root).take(1) =~= components(q));
            assert(at_or_above(q, root));
        }
        lemma_resolve_under_slash_is_virtual(root, path, ans, d);
        return;
    }
    let names = body_comps(pieces(virt.drop_first()));
    assert(components(virt) =~= components(slash()) + names);
    let q0 = lemma_strip_pieces(virt, slash(), names);
    if q0.len() > 0 {
        lemma_virtual_with_names(root, path, ans, d, names, q0);
    } else {
        lemma_virtual_without_names(root, path, ans, d, names, q0);
    }
}

} // verus!
