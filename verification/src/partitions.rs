//! Which partitions the mount logic manages: the built-in ones and any extra
//! ones configured, kept when the partition exists at the file system root.

use vstd::prelude::*;
use crate::disk::{entry_exists, Probe};
use crate::order::{
    lemma_lex_asymmetric, lemma_lex_irreflexive, lemma_lex_total, lemma_lex_transitive, lex_lt,
    str_lt, strictly_sorted,
};
use crate::path::push;
use crate::path_exec::push_exec;
use crate::recovery::names;
use crate::text::{chars_of, string_from_chars};

verus! {

broadcast use vstd::string::group_string_axioms;

/// The partitions that are always considered.
pub open spec fn managed_partitions_spec() -> Seq<Seq<char>> {
    seq!["system"@, "vendor"@, "product"@, "system_ext"@, "odm"@, "oem"@]
}

/// The partitions that are always considered, in their listed order.
pub fn managed_partitions() -> (r: Vec<String>)
    ensures
        names(r@) == managed_partitions_spec(),
{
    let mut r: Vec<String> = Vec::new();
    r.push("system".to_owned());
    r.push("vendor".to_owned());
    r.push("product".to_owned());
    r.push("system_ext".to_owned());
    r.push("odm".to_owned());
    r.push("oem".to_owned());
    assert(names(r@) =~= managed_partitions_spec());
    r
}

/// `r` is the sorted list, without repeats, of the candidates whose flag is set.
pub open spec fn selection(r: Seq<Seq<char>>, cands: Seq<Seq<char>>, present: Seq<bool>) -> bool {
    &&& strictly_sorted(r)
    &&& forall|x: Seq<char>|
        r.contains(x) <==> exists|i: int| 0 <= i < cands.len() && present[i] && #[trigger] cands[i] == x
}

fn string_lt(a: &String, b: &String) -> (r: bool)
    ensures
        r == lex_lt(a@, b@),
{
    let x = chars_of(a.as_str());
    let y = chars_of(b.as_str());
    str_lt(&x, &y)
}

/// Inserts `x` into a strictly sorted list unless it is already there.
fn insert_sorted(res: &mut Vec<String>, x: String)
    requires
        strictly_sorted(names(old(res)@)),
    ensures
        strictly_sorted(names(final(res)@)),
        forall|y: Seq<char>| names(final(res)@).contains(y) <==> (names(old(res)@).contains(y) || y == x@),
{
    let ghost s = names(res@);
    let mut j: usize = 0;
    while j < res.len() && string_lt(&res[j], &x)
        invariant
            j <= res.len(),
            s == names(res@),
            forall|k: int| 0 <= k < j ==> lex_lt(#[trigger] s[k], x@),
        decreases res.len() - j,
    {
        j += 1;
    }
    if j < res.len() && res[j].eq(&x) {
        assert(s[j as int] == x@);
        return;
    }
    proof {
        if j < res.len() {
            lemma_lex_total(s[j as int], x@);
            assert(lex_lt(x@, s[j as int]));
        }
    }
    res.insert(j, x);
    let ghost t = names(res@);
    assert(t =~= s.insert(j as int, x@));
    assert forall|a: int, b: int| 0 <= a < b < t.len() implies lex_lt(#[trigger] t[a], #[trigger] t[b]) by {
        if b < j {
            assert(t[a] == s[a] && t[b] == s[b]);
        } else if b == j {
            assert(t[a] == s[a]);
        } else if a == j {
            assert(t[b] == s[b - 1]);
            if b - 1 > j {
                assert(lex_lt(s[j as int], s[b - 1]));
                lemma_lex_transitive(x@, s[j as int], s[b - 1]);
            }
        } else if a < j {
            assert(t[a] == s[a] && t[b] == s[b - 1]);
            if a < b - 1 {
            } else {
                assert(false);
            }
        } else {
            assert(t[a] == s[a - 1] && t[b] == s[b - 1]);
        }
    }
    assert forall|y: Seq<char>| t.contains(y) <==> (s.contains(y) || y == x@) by {
        if t.contains(y) {
            let k = choose|k: int| 0 <= k < t.len() && t[k] == y;
            if k < j {
                assert(s[k] == y);
            } else if k > j {
                assert(s[k - 1] == y);
            }
        }
        if s.contains(y) {
            let k = choose|k: int| 0 <= k < s.len() && s[k] == y;
            if k < j {
                assert(t[k] == y);
            } else {
                assert(t[k + 1] == y);
            }
        }
        if y == x@ {
            assert(t[j as int] == y);
        }
    }
}

/// The sorted list, without repeats, of the candidates whose `present` flag is set.
pub fn select_partition_names(candidates: &Vec<String>, present: &Vec<bool>) -> (r: Vec<String>)
    requires
        candidates.len() == present.len(),
    ensures
        selection(names(r@), names(candidates@), present@),
{
    let ghost cands = names(candidates@);
    let mut res: Vec<String> = Vec::new();
    let mut i: usize = 0;
    assert(names(res@) =~= Seq::<Seq<char>>::empty());
    while i < candidates.len()
        invariant
            i <= candidates.len() == present.len(),
            cands == names(candidates@),
            strictly_sorted(names(res@)),
            forall|x: Seq<char>|
                names(res@).contains(x) <==> exists|k: int|
                    0 <= k < i && present@[k] && #[trigger] cands[k] == x,
        decreases candidates.len() - i,
    {
        if present[i] {
            let ghost before = names(res@);
            insert_sorted(&mut res, candidates[i].clone());
            assert forall|x: Seq<char>| names(res@).contains(x) <==> exists|k: int|
                0 <= k < i + 1 && present@[k] && #[trigger] cands[k] == x by {
                if x == cands[i as int] {
                    assert(present@[i as int] && cands[i as int] == x);
                }
                if exists|k: int| 0 <= k < i + 1 && present@[k] && #[trigger] cands[k] == x {
                    let k = choose|k: int| 0 <= k < i + 1 && present@[k] && #[trigger] cands[k] == x;
                    if k < i {
                        assert(before.contains(x));
                    }
                }
            }
        } else {
            assert forall|x: Seq<char>| names(res@).contains(x) <==> exists|k: int|
                0 <= k < i + 1 && present@[k] && #[trigger] cands[k] == x by {
                if exists|k: int| 0 <= k < i + 1 && present@[k] && #[trigger] cands[k] == x {
                    let k = choose|k: int| 0 <= k < i + 1 && present@[k] && #[trigger] cands[k] == x;
                    assert(k < i);
                }
            }
        }
        i += 1;
    }
    res
}

/// The candidate partitions: the built-in ones followed by the extra ones.
pub open spec fn partition_candidates(extra: Seq<Seq<char>>) -> Seq<Seq<char>> {
    managed_partitions_spec() + extra
}

/// The disk was asked, for each candidate in order, whether `/<name>` exists;
/// `asks[j]` is the path asked about and the answer.
pub open spec fn asked_roots(asks: Seq<(Seq<char>, bool)>, cands: Seq<Seq<char>>) -> bool {
    &&& asks.len() == cands.len()
    &&& forall|j: int| 0 <= j < asks.len() ==> (#[trigger] asks[j]).0 == push(seq!['/'], cands[j])
}

/// The records of the probes, in order.
pub open spec fn probe_views(ps: Seq<Probe>) -> Seq<(Seq<char>, bool)> {
    ps.map_values(|p: Probe| p@)
}

/// The answers of the asks, in order.
pub open spec fn answers_of(asks: Seq<(Seq<char>, bool)>) -> Seq<bool> {
    asks.map_values(|a: (Seq<char>, bool)| a.1)
}

/// The partition names to manage: the built-in ones followed by the extra
/// ones, kept when `/<name>` exists, sorted, each once.
/// The module directory is not consulted. The second part of the result
/// holds, for each candidate, the record of the question about `/<name>` and
/// its answer; the names kept are exactly those it said exist.
pub fn discover_partition_names(moduledir: &str, extra_partitions: &[String]) -> (r: (Vec<String>, Vec<Probe>))
    ensures
        asked_roots(probe_views(r.1@), partition_candidates(names(extra_partitions@))),
        selection(
            names(r.0@),
            partition_candidates(names(extra_partitions@)),
            answers_of(probe_views(r.1@)),
        ),
{
    let mut candidates = managed_partitions();
    let mut k: usize = 0;
    let ghost m = names(candidates@);
    while k < extra_partitions.len()
        invariant
            k <= extra_partitions.len(),
            m == managed_partitions_spec(),
            names(candidates@) == m + names(extra_partitions@).take(k as int),
        decreases extra_partitions.len() - k,
    {
        let ghost before = names(candidates@);
        candidates.push(extra_partitions[k].clone());
        assert(names(candidates@) =~= before.push(extra_partitions@[k as int]@));
        assert(names(extra_partitions@).take(k + 1) =~= names(extra_partitions@).take(k as int).push(
            extra_partitions@[k as int]@,
        ));
        k += 1;
    }
    assert(names(extra_partitions@).take(extra_partitions.len() as int) =~= names(extra_partitions@));
    let root = chars_of("/");
    proof {
        reveal_strlit("/");
    }
    assert(root@ =~= seq!['/']);
    let mut present: Vec<bool> = Vec::new();
    let mut probes: Vec<Probe> = Vec::new();
    let mut i: usize = 0;
    while i < candidates.len()
        invariant
            i <= candidates.len(),
            present.len() == i,
            root@ == seq!['/'],
            probes.len() == i,
            forall|j: int| 0 <= j < i ==> (#[trigger] probes@[j])@.0 == push(
                seq!['/'],
                candidates@[j]@,
            ) && probes@[j]@.1 == present@[j],
        decreases candidates.len() - i,
    {
        let name = chars_of(candidates[i].as_str());
        let full = push_exec(&root, &name);
        let s = string_from_chars(&full);
        let probe = entry_exists(s.as_str());
        present.push(probe.found());
        probes.push(probe);
        i += 1;
    }
    let r = select_partition_names(&candidates, &present);
    let ghost asks = probe_views(probes@);
    assert(answers_of(asks) =~= present@);
    assert(names(candidates@) == partition_candidates(names(extra_partitions@)));
    assert forall|j: int| 0 <= j < asks.len() implies (#[trigger] asks[j]).0 == push(
        seq!['/'],
        partition_candidates(names(extra_partitions@))[j],
    ) by {
        assert(names(candidates@)[j] == candidates@[j]@);
        assert(asks[j] == probes@[j]@);
    }
    (r, probes)
}

/// The managed partition names: the same discovery, with the same record of
/// what the disk was asked and answered.
pub fn managed_partition_names(moduledir: &str, extra_partitions: &[String]) -> (r: (Vec<String>, Vec<Probe>))
    ensures
        asked_roots(probe_views(r.1@), partition_candidates(names(extra_partitions@))),
        selection(
            names(r.0@),
            partition_candidates(names(extra_partitions@)),
            answers_of(probe_views(r.1@)),
        ),
{
    discover_partition_names(moduledir, extra_partitions)
}

/// The managed partition names as a set: each name once (here in sorted order).
pub fn managed_partition_set(moduledir: &str, extra_partitions: &[String]) -> (r: (Vec<String>, Vec<Probe>))
    ensures
        names(r.0@).no_duplicates(),
        asked_roots(probe_views(r.1@), partition_candidates(names(extra_partitions@))),
        selection(
            names(r.0@),
            partition_candidates(names(extra_partitions@)),
            answers_of(probe_views(r.1@)),
        ),
{
    let r = managed_partition_names(moduledir, extra_partitions);
    proof {
        let s = names(r.0@);
        assert forall|a: int, b: int| 0 <= a < s.len() && 0 <= b < s.len() && a != b implies s[a] != s[b] by {
            if a < b {
                assert(lex_lt(s[a], s[b]));
                lemma_lex_irreflexive(s[a]);
            } else {
                assert(lex_lt(s[b], s[a]));
                lemma_lex_irreflexive(s[a]);
            }
        }
    }
    r
}

/// Two strictly sorted lists with the same names are the same list.
proof fn lemma_strictly_sorted_unique(x: Seq<Seq<char>>, y: Seq<Seq<char>>)
    requires
        strictly_sorted(x),
        strictly_sorted(y),
        forall|z: Seq<char>| x.contains(z) <==> y.contains(z),
    ensures
        x == y,
    decreases x.len() + y.len(),
{
    if x.len() == 0 {
        if y.len() > 0 {
            assert(y.contains(y[0]));
        }
        assert(x =~= y);
    } else if y.len() == 0 {
        assert(x.contains(x[0]));
    } else {
        assert(x.contains(x[0]));
        assert(y.contains(y[0]));
        let k = choose|k: int| 0 <= k < y.len() && y[k] == x[0];
        let m = choose|m: int| 0 <= m < x.len() && x[m] == y[0];
        if k > 0 {
            assert(lex_lt(y[0], y[k]));
            if m > 0 {
                assert(lex_lt(x[0], x[m]));
                lemma_lex_asymmetric(x[0], y[0]);
            } else {
                lemma_lex_irreflexive(y[0]);
            }
        }
        assert(x[0] == y[0]);
        let x1 = x.drop_first();
        let y1 = y.drop_first();
        assert forall|z: Seq<char>| x1.contains(z) <==> y1.contains(z) by {
            if x1.contains(z) {
                let a = choose|a: int| 0 <= a < x1.len() && x1[a] == z;
                assert(x[a + 1] == z);
                assert(lex_lt(x[0], x[a + 1]));
                assert(y.contains(z));
                let b = choose|b: int| 0 <= b < y.len() && y[b] == z;
                if b == 0 {
                    lemma_lex_irreflexive(z);
                }
                assert(y1[b - 1] == z);
            }
            if y1.contains(z) {
                let a = choose|a: int| 0 <= a < y1.len() && y1[a] == z;
                assert(y[a + 1] == z);
                assert(lex_lt(y[0], y[a + 1]));
                assert(x.contains(z));
                let b = choose|b: int| 0 <= b < x.len() && x[b] == z;
                if b == 0 {
                    lemma_lex_irreflexive(z);
                }
                assert(x1[b - 1] == z);
            }
        }
        assert forall|i: int, j: int| 0 <= i < j < x1.len() implies lex_lt(#[trigger] x1[i], #[trigger] x1[j]) by {
            assert(x1[i] == x[i + 1] && x1[j] == x[j + 1]);
        }
        assert forall|i: int, j: int| 0 <= i < j < y1.len() implies lex_lt(#[trigger] y1[i], #[trigger] y1[j]) by {
            assert(y1[i] == y[i + 1] && y1[j] == y[j + 1]);
        }
        lemma_strictly_sorted_unique(x1, y1);
        assert(x =~= seq![x[0]] + x1);
        assert(y =~= seq![y[0]] + y1);
    }
}

/// Law: the selected names are determined by the candidates and the disk's
/// answers: two discoveries (by any of the three functions) that got the same
/// answers give the same list.
pub proof fn lemma_selection_determined(
    r1: Seq<Seq<char>>,
    r2: Seq<Seq<char>>,
    cands: Seq<Seq<char>>,
    present: Seq<bool>,
)
    requires
        selection(r1, cands, present),
        selection(r2, cands, present),
    ensures
        r1 == r2,
{
    lemma_strictly_sorted_unique(r1, r2);
}

/// Law: a candidate is kept exactly when the disk said `/<name>` exists.
pub proof fn lemma_kept_iff_root_exists(
    r: Seq<Seq<char>>,
    asks: Seq<(Seq<char>, bool)>,
    cands: Seq<Seq<char>>,
    name: Seq<char>,
)
    requires
        asked_roots(asks, cands),
        selection(r, cands, answers_of(asks)),
    ensures
        r.contains(name) <==> exists|j: int|
            0 <= j < cands.len() && cands[j] == name && (#[trigger] asks[j]).1
                && asks[j].0 == push(seq!['/'], name),
{
    if r.contains(name) {
        let i = choose|i: int| 0 <= i < cands.len() && answers_of(asks)[i] && #[trigger] cands[i] == name;
        assert(asks[i].1 == answers_of(asks)[i]);
    }
    if exists|j: int| 0 <= j < cands.len() && cands[j] == name && (#[trigger] asks[j]).1 && asks[j].0 == push(seq!['/'], name) {
        let j = choose|j: int| 0 <= j < cands.len() && cands[j] == name && (#[trigger] asks[j]).1 && asks[j].0 == push(seq!['/'], name);
        assert(answers_of(asks)[j]);
        assert(cands[j] == name);
    }
}

} // verus!
