//! Selecting the most recent log lines.

use vstd::prelude::*;
use crate::recovery::names;
use crate::text::{chars_of, split_chars, split_on, string_from_chars};

verus! {

broadcast use vstd::string::group_string_axioms;

/// A line with the `\r` of a `\r\n` ending removed.
pub open spec fn strip_cr(l: Seq<char>) -> Seq<char> {
    if l.len() > 0 && l.last() == '\r' {
        l.drop_last()
    } else {
        l
    }
}

pub open spec fn strip_all_cr(ls: Seq<Seq<char>>) -> Seq<Seq<char>> {
    ls.map_values(|l: Seq<char>| strip_cr(l))
}

/// `str::lines`: lines end at `\n` or `\r\n`; the last line needs no ending,
/// and an empty text after the last ending is not a line.
pub open spec fn lines_of(s: Seq<char>) -> Seq<Seq<char>> {
    let ps = split_on(s, '\n');
    let body = strip_all_cr(ps.drop_last());
    if ps.last().len() == 0 {
        body
    } else {
        body.push(ps.last())
    }
}

/// The last `n` lines of `s`, oldest first (all of them when there are fewer).
pub open spec fn last_lines_of(s: Seq<char>, n: nat) -> Seq<Seq<char>> {
    let ls = lines_of(s);
    if ls.len() <= n {
        ls
    } else {
        ls.skip(ls.len() - n)
    }
}

/// `str::lines`.
pub fn lines(s: &str) -> (r: Vec<String>)
    ensures
        names(r@) == lines_of(s@),
{
    let cs = chars_of(s);
    let parts = split_chars(&cs, '\n');
    let ghost pv = parts@.map_values(|v: Vec<char>| v@);
    let n = parts.len();
    assert(pv.len() > 0);
    let m = n - 1;
    let mut out: Vec<String> = Vec::new();
    let mut i: usize = 0;
    assert(names(out@) =~= strip_all_cr(pv.take(0)));
    while i < m
        invariant
            i <= m,
            m + 1 == n,
            n == parts.len(),
            n == pv.len(),
            pv == parts@.map_values(|v: Vec<char>| v@),
            names(out@) == strip_all_cr(pv.take(i as int)),
        decreases m - i,
    {
        let p = &parts[i];
        let ghost prev = names(out@);
        assert(pv[i as int] == p@);
        let line = if p.len() > 0 && p[p.len() - 1] == '\r' {
            assert(p@.subrange(0, p.len() - 1) =~= p@.drop_last());
            crate::text::slice_chars(p, 0, p.len() - 1)
        } else {
            assert(p@.subrange(0, p.len() as int) =~= p@);
            crate::text::slice_chars(p, 0, p.len())
        };
        assert(line@ == strip_cr(p@));
        out.push(string_from_chars(&line));
        assert(pv.take(i + 1) =~= pv.take(i as int).push(pv[i as int]));
        assert(names(out@) =~= prev.push(strip_cr(pv[i as int])));
        assert(strip_all_cr(pv.take(i + 1)) =~= strip_all_cr(pv.take(i as int)).push(
            strip_cr(pv[i as int]),
        ));
        i += 1;
    }
    assert(pv.take(i as int) =~= pv.drop_last());
    let last = &parts[n - 1];
    assert(pv.last() == last@);
    if last.len() > 0 {
        let ghost prev = names(out@);
        let c = crate::path_exec::copy_chars(last);
        out.push(string_from_chars(&c));
        assert(names(out@) =~= prev.push(last@));
    }
    out
}

/// The last `n` log lines, oldest first.
pub fn last_lines(output: &str, n: usize) -> (r: Vec<String>)
    ensures
        names(r@) == last_lines_of(output@, n as nat),
{
    let all = lines(output);
    if all.len() <= n {
        return all;
    }
    let start = all.len() - n;
    let mut r: Vec<String> = Vec::new();
    let mut i = start;
    while i < all.len()
        invariant
            start <= i <= all.len(),
            start == all.len() - n,
            names(r@) == names(all@).subrange(start as int, i as int),
        decreases all.len() - i,
    {
        let ghost prev = names(r@);
        let c = all[i].clone();
        r.push(c);
        assert(names(r@) =~= prev.push(names(all@)[i as int]));
        assert(names(r@) =~= names(all@).subrange(start as int, i + 1));
        i += 1;
    }
    assert(names(all@).subrange(start as int, all.len() as int) =~= names(all@).skip(start as int));
    r
}

} // verus!
