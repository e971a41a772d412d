//! Executable counterparts of the path model in `path`.

use vstd::prelude::*;
use crate::path::{
    body_comps, body_of, components, file_name, head_comps, head_of, head_str, is_absolute,
    is_dotdot, join, lemma_trim_back_prefix, meaningless, parent, path_eq, piece_comp, pieces, push,
    render, skip_comps, split_state, strip_prefix, trim_back, trim_front, Comp, Head,
};

verus! {

/// The character sequences held by a list of pieces.
pub open spec fn views(qs: Seq<Vec<char>>) -> Seq<Seq<char>> {
    qs.map_values(|v: Vec<char>| v@)
}

pub fn copy_chars(v: &Vec<char>) -> (r: Vec<char>)
    ensures
        r@ == v@,
{
    let mut r: Vec<char> = Vec::new();
    let mut i: usize = 0;
    while i < v.len()
        invariant
            i <= v.len(),
            r@ == v@.take(i as int),
        decreases v.len() - i,
    {
        r.push(v[i]);
        i += 1;
    }
    assert(r@ =~= v@);
    r
}

/// Copies `qs[lo..hi]`.
pub fn sublist(qs: &Vec<Vec<char>>, lo: usize, hi: usize) -> (r: Vec<Vec<char>>)
    requires
        lo <= hi <= qs.len(),
    ensures
        views(r@) == views(qs@).subrange(lo as int, hi as int),
{
    let mut r: Vec<Vec<char>> = Vec::new();
    let mut i: usize = lo;
    while i < hi
        invariant
            lo <= i <= hi <= qs.len(),
            r@.len() == i - lo,
            views(r@) == views(qs@).subrange(lo as int, i as int),
        decreases hi - i,
    {
        let c = copy_chars(&qs[i]);
        let ghost prev = r@;
        r.push(c);
        assert(r@ == prev.push(c));
        assert forall|j: int| 0 <= j < views(r@).len() implies views(r@)[j] == views(qs@).subrange(
            lo as int,
            i + 1,
        )[j] by {
            if j < prev.len() {
                assert(views(prev)[j] == views(qs@).subrange(lo as int, i as int)[j]);
                assert(views(r@)[j] == r@[j]@);
                assert(views(prev)[j] == prev[j]@);
            } else {
                assert(views(r@)[j] == c@);
                assert(views(qs@)[i as int] == qs@[i as int]@);
            }
        }
        assert(views(r@) =~= views(qs@).subrange(lo as int, i + 1));
        i += 1;
    }
    r
}

pub fn is_meaningless(q: &Vec<char>) -> (b: bool)
    ensures
        b == meaningless(q@),
{
    if q.len() == 0 {
        true
    } else if q.len() == 1 && q[0] == '.' {
        assert(q@ =~= seq!['.']);
        true
    } else {
        false
    }
}

pub fn is_dotdot_exec(q: &Vec<char>) -> (b: bool)
    ensures
        b == is_dotdot(q@),
{
    if q.len() == 2 && q[0] == '.' && q[1] == '.' {
        assert(q@ =~= seq!['.', '.']);
        true
    } else {
        false
    }
}

/// Splits `s` on `/`.
pub fn split_pieces(s: &Vec<char>, from: usize) -> (r: Vec<Vec<char>>)
    requires
        from <= s.len(),
    ensures
        views(r@) == pieces(s@.skip(from as int)),
{
    let ghost b = s@.skip(from as int);
    let mut done: Vec<Vec<char>> = Vec::new();
    let mut cur: Vec<char> = Vec::new();
    let mut i: usize = from;
    assert(b.take(0) =~= Seq::<char>::empty());
    while i < s.len()
        invariant
            from <= i <= s.len(),
            b == s@.skip(from as int),
            views(done@) == split_state(b.take(i - from)).0,
            cur@ == split_state(b.take(i - from)).1,
        decreases s.len() - i,
    {
        let c = s[i];
        assert(b.take(i + 1 - from).drop_last() =~= b.take(i - from));
        assert(b.take(i + 1 - from).last() == c);
        if c == '/' {
            let piece = copy_chars(&cur);
            done.push(piece);
            cur = Vec::new();
            assert(views(done@) =~= split_state(b.take(i - from)).0.push(
                split_state(b.take(i - from)).1,
            ));
        } else {
            cur.push(c);
            assert(views(done@) =~= views(done@));
        }
        i += 1;
    }
    assert(b.take(s.len() - from) =~= b);
    done.push(cur);
    assert(views(done@) =~= pieces(b));
    done
}

pub fn head_of_exec(s: &Vec<char>) -> (h: Head)
    ensures
        h == head_of(s@),
{
    if s.len() > 0 && s[0] == '/' {
        Head::Root
    } else if s.len() > 0 && s[0] == '.' && (s.len() == 1 || s[1] == '/') {
        Head::Cur
    } else {
        Head::Plain
    }
}

/// Head and body pieces of a path.
pub fn parse_path(s: &Vec<char>) -> (r: (Head, Vec<Vec<char>>))
    ensures
        r.0 == head_of(s@),
        views(r.1@) == pieces(body_of(s@)),
{
    let h = head_of_exec(s);
    if h == Head::Plain {
        assert(s@.skip(0) =~= s@);
        (h, split_pieces(s, 0))
    } else {
        assert(s@.skip(1) =~= s@.drop_first());
        (h, split_pieces(s, 1))
    }
}

pub fn join_exec(qs: &Vec<Vec<char>>) -> (r: Vec<char>)
    ensures
        r@ == join(views(qs@)),
{
    let mut r: Vec<char> = Vec::new();
    let mut i: usize = 0;
    while i < qs.len()
        invariant
            i <= qs.len(),
            r@ == join(views(qs@).take(i as int)),
        decreases qs.len() - i,
    {
        let ghost prev = r@;
        if i > 0 {
            r.push('/');
        }
        let q = &qs[i];
        let mut j: usize = 0;
        while j < q.len()
            invariant
                j <= q.len(),
                i < qs.len(),
                q == qs[i as int],
                r@ == (if i > 0 { prev + seq!['/'] } else { prev }) + q@.take(j as int),
            decreases q.len() - j,
        {
            r.push(q[j]);
            assert((if i > 0 { prev + seq!['/'] } else { prev }) + q@.take(j + 1) =~= ((if i > 0 {
                prev + seq!['/']
            } else {
                prev
            }) + q@.take(j as int)).push(q@[j as int]));
            j += 1;
        }
        assert(q@.take(q.len() as int) =~= q@);
        let ghost t1 = views(qs@).take(i + 1);
        assert(t1.drop_last() =~= views(qs@).take(i as int));
        assert(t1.last() == q@);
        if i == 0 {
            assert(prev =~= Seq::<char>::empty());
            assert(r@ =~= join(t1));
        } else {
            assert(r@ =~= join(t1));
        }
        i += 1;
    }
    assert(views(qs@).take(qs.len() as int) =~= views(qs@));
    r
}

pub fn head_str_exec(h: Head) -> (r: Vec<char>)
    ensures
        r@ == head_str(h),
{
    match h {
        Head::Plain => Vec::new(),
        Head::Root => {
            let mut v = Vec::new();
            v.push('/');
            assert(v@ =~= seq!['/']);
            v
        },
        Head::Cur => {
            let mut v = Vec::new();
            v.push('.');
            assert(v@ =~= seq!['.']);
            v
        },
    }
}

pub fn append_chars(a: &mut Vec<char>, b: &Vec<char>)
    ensures
        final(a)@ == old(a)@ + b@,
{
    let mut j: usize = 0;
    let ghost a0 = a@;
    while j < b.len()
        invariant
            j <= b.len(),
            a@ == a0 + b@.take(j as int),
        decreases b.len() - j,
    {
        a.push(b[j]);
        assert(a0 + b@.take(j + 1) =~= (a0 + b@.take(j as int)).push(b@[j as int]));
        j += 1;
    }
    assert(b@.take(b.len() as int) =~= b@);
}

pub fn render_exec(h: Head, qs: &Vec<Vec<char>>) -> (r: Vec<char>)
    ensures
        r@ == render(h, views(qs@)),
{
    let mut r = head_str_exec(h);
    let j = join_exec(qs);
    append_chars(&mut r, &j);
    r
}

/// Length of the prefix that `trim_back` keeps.
pub fn trim_back_len(qs: &Vec<Vec<char>>, hi: usize) -> (k: usize)
    requires
        hi <= qs.len(),
    ensures
        k <= hi,
        trim_back(views(qs@).take(hi as int)) == views(qs@).take(k as int),
{
    let mut k = hi;
    while k > 0 && is_meaningless(&qs[k - 1])
        invariant
            k <= hi <= qs.len(),
            trim_back(views(qs@).take(hi as int)) == trim_back(views(qs@).take(k as int)),
        decreases k,
    {
        assert(views(qs@).take(k as int).drop_last() =~= views(qs@).take(k - 1));
        k -= 1;
    }
    k
}

/// Start of the suffix that `trim_front` keeps.
pub fn trim_front_start(qs: &Vec<Vec<char>>, lo: usize) -> (k: usize)
    requires
        lo <= qs.len(),
    ensures
        lo <= k <= qs.len(),
        trim_front(views(qs@).skip(lo as int)) == views(qs@).skip(k as int),
{
    let mut k = lo;
    while k < qs.len() && is_meaningless(&qs[k])
        invariant
            lo <= k <= qs.len(),
            trim_front(views(qs@).skip(lo as int)) == trim_front(views(qs@).skip(k as int)),
        decreases qs.len() - k,
    {
        assert(views(qs@).skip(k as int).drop_first() =~= views(qs@).skip(k + 1));
        k += 1;
    }
    k
}


/// One path component with its name held as characters.
pub enum PathComp {
    Root,
    Cur,
    Parent,
    Normal(Vec<char>),
}

pub open spec fn comp_view(c: PathComp) -> Comp {
    match c {
        PathComp::Root => Comp::Root,
        PathComp::Cur => Comp::Cur,
        PathComp::Parent => Comp::Parent,
        PathComp::Normal(v) => Comp::Normal(v@),
    }
}

pub open spec fn comps_view(cs: Seq<PathComp>) -> Seq<Comp> {
    cs.map_values(|c: PathComp| comp_view(c))
}

pub fn chars_eq(a: &Vec<char>, b: &Vec<char>) -> (r: bool)
    ensures
        r == (a@ == b@),
{
    if a.len() != b.len() {
        return false;
    }
    let mut i: usize = 0;
    while i < a.len()
        invariant
            i <= a.len() == b.len(),
            a@.take(i as int) == b@.take(i as int),
        decreases a.len() - i,
    {
        if a[i] != b[i] {
            assert(a@[i as int] != b@[i as int]);
            return false;
        }
        assert(a@.take(i + 1) =~= a@.take(i as int).push(a@[i as int]));
        assert(b@.take(i + 1) =~= b@.take(i as int).push(b@[i as int]));
        i += 1;
    }
    assert(a@.take(a.len() as int) =~= a@);
    assert(b@.take(b.len() as int) =~= b@);
    true
}

pub fn comp_eq(a: &PathComp, b: &PathComp) -> (r: bool)
    ensures
        r == (comp_view(*a) == comp_view(*b)),
{
    match (a, b) {
        (PathComp::Root, PathComp::Root) => true,
        (PathComp::Cur, PathComp::Cur) => true,
        (PathComp::Parent, PathComp::Parent) => true,
        (PathComp::Normal(x), PathComp::Normal(y)) => chars_eq(x, y),
        _ => false,
    }
}

/// `Path::components`.
pub fn components_exec(s: &Vec<char>) -> (r: Vec<PathComp>)
    ensures
        comps_view(r@) == components(s@),
{
    let (h, qs) = parse_path(s);
    let mut r: Vec<PathComp> = Vec::new();
    match h {
        Head::Root => r.push(PathComp::Root),
        Head::Cur => r.push(PathComp::Cur),
        Head::Plain => {},
    }
    let ghost hc = head_comps(h);
    assert(comps_view(r@) =~= hc);
    let mut i: usize = 0;
    while i < qs.len()
        invariant
            i <= qs.len(),
            comps_view(r@) == hc + body_comps(views(qs@).take(i as int)),
        decreases qs.len() - i,
    {
        let ghost t = views(qs@).take(i + 1);
        assert(t.drop_last() =~= views(qs@).take(i as int));
        assert(t.last() == qs@[i as int]@);
        let ghost prev = r@;
        if is_meaningless(&qs[i]) {
        } else if is_dotdot_exec(&qs[i]) {
            r.push(PathComp::Parent);
            assert(comps_view(r@) =~= comps_view(prev).push(Comp::Parent));
            assert(body_comps(t) == body_comps(t.drop_last()).push(piece_comp(t.last())));
            assert(comps_view(r@) =~= hc + body_comps(t));
        } else {
            let c = copy_chars(&qs[i]);
            r.push(PathComp::Normal(c));
            assert(comps_view(r@) =~= comps_view(prev).push(Comp::Normal(c@)));
            assert(body_comps(t) == body_comps(t.drop_last()).push(piece_comp(t.last())));
            assert(comps_view(r@) =~= hc + body_comps(t));
        }
        i += 1;
    }
    assert(views(qs@).take(qs.len() as int) =~= views(qs@));
    r
}

/// Whether `cb` is a component prefix of `cs`.
pub fn comps_start_with(cs: &Vec<PathComp>, cb: &Vec<PathComp>) -> (r: bool)
    ensures
        r == (cb.len() <= cs.len() && comps_view(cs@).take(cb.len() as int) == comps_view(cb@)),
{
    if cb.len() > cs.len() {
        return false;
    }
    let mut i: usize = 0;
    while i < cb.len()
        invariant
            i <= cb.len() <= cs.len(),
            comps_view(cs@).take(i as int) == comps_view(cb@).take(i as int),
        decreases cb.len() - i,
    {
        if !comp_eq(&cs[i], &cb[i]) {
            assert(comps_view(cs@).take(cb.len() as int)[i as int] != comps_view(cb@)[i as int]);
            return false;
        }
        assert(comps_view(cs@).take(i + 1) =~= comps_view(cs@).take(i as int).push(
            comp_view(cs@[i as int]),
        ));
        assert(comps_view(cb@).take(i + 1) =~= comps_view(cb@).take(i as int).push(
            comp_view(cb@[i as int]),
        ));
        i += 1;
    }
    assert(comps_view(cb@).take(cb.len() as int) =~= comps_view(cb@));
    true
}

/// Path equality (`==` on `Path`).
pub fn path_eq_exec(a: &Vec<char>, b: &Vec<char>) -> (r: bool)
    ensures
        r == path_eq(a@, b@),
{
    let ca = components_exec(a);
    let cb = components_exec(b);
    let r = ca.len() == cb.len() && comps_start_with(&ca, &cb);
    proof {
        if ca.len() == cb.len() && r {
            assert(comps_view(ca@).take(cb.len() as int) =~= comps_view(ca@));
        }
        if comps_view(ca@) == comps_view(cb@) {
            assert(comps_view(ca@).len() == ca@.len());
            assert(comps_view(cb@).len() == cb@.len());
            assert(comps_view(ca@).take(cb.len() as int) =~= comps_view(ca@));
        }
    }
    r
}

pub fn is_absolute_exec(s: &Vec<char>) -> (r: bool)
    ensures
        r == is_absolute(s@),
{
    s.len() > 0 && s[0] == '/'
}

/// `PathBuf::push`.
pub fn push_exec(buf: &Vec<char>, p: &Vec<char>) -> (r: Vec<char>)
    ensures
        r@ == push(buf@, p@),
{
    if is_absolute_exec(p) {
        copy_chars(p)
    } else if buf.len() > 0 && buf[buf.len() - 1] != '/' {
        let mut r = copy_chars(buf);
        r.push('/');
        append_chars(&mut r, p);
        r
    } else {
        let mut r = copy_chars(buf);
        append_chars(&mut r, p);
        r
    }
}

/// `Path::parent`.
pub fn parent_exec(s: &Vec<char>) -> (r: Option<Vec<char>>)
    ensures
        match r {
            Some(v) => parent(s@) == Some(v@),
            None => parent(s@) is None,
        },
{
    let (h, qs) = parse_path(s);
    let t = trim_back_len(&qs, qs.len());
    assert(views(qs@).take(qs.len() as int) =~= views(qs@));
    if t > 0 {
        let k = trim_back_len(&qs, t - 1);
        assert(views(qs@).take(t as int).drop_last() =~= views(qs@).take(t - 1));
        let sub = sublist(&qs, 0, k);
        assert(views(qs@).subrange(0, k as int) =~= views(qs@).take(k as int));
        Some(render_exec(h, &sub))
    } else if h == Head::Cur {
        Some(Vec::new())
    } else {
        None
    }
}

/// `Path::file_name`.
pub fn file_name_exec(s: &Vec<char>) -> (r: Option<Vec<char>>)
    ensures
        match r {
            Some(v) => file_name(s@) == Some(v@),
            None => file_name(s@) is None,
        },
{
    let (_h, qs) = parse_path(s);
    let t = trim_back_len(&qs, qs.len());
    assert(views(qs@).take(qs.len() as int) =~= views(qs@));
    if t > 0 && !is_dotdot_exec(&qs[t - 1]) {
        assert(views(qs@).take(t as int).last() == qs@[t - 1]@);
        Some(copy_chars(&qs[t - 1]))
    } else {
        proof {
            if t > 0 {
                assert(views(qs@).take(t as int).last() == qs@[t - 1]@);
            }
        }
        None
    }
}

/// Index in `qs` after `m` component-bearing pieces have been read from the front.
pub fn skip_comps_start(qs: &Vec<Vec<char>>, m: usize) -> (p: usize)
    ensures
        p <= qs.len(),
        skip_comps(views(qs@), m as nat) == views(qs@).skip(p as int),
{
    let mut p: usize = 0;
    let mut left = m;
    assert(views(qs@).skip(0) =~= views(qs@));
    while left > 0 && p < qs.len()
        invariant
            p <= qs.len(),
            left <= m,
            skip_comps(views(qs@), m as nat) == skip_comps(views(qs@).skip(p as int), left as nat),
        decreases qs.len() - p,
    {
        assert(views(qs@).skip(p as int).drop_first() =~= views(qs@).skip(p + 1));
        assert(views(qs@).skip(p as int)[0] == qs@[p as int]@);
        if !is_meaningless(&qs[p]) {
            left -= 1;
        }
        p += 1;
    }
    p
}

/// `Path::strip_prefix`.
pub fn strip_prefix_exec(s: &Vec<char>, base: &Vec<char>) -> (r: Option<Vec<char>>)
    ensures
        match r {
            Some(v) => strip_prefix(s@, base@) == Some(v@),
            None => strip_prefix(s@, base@) is None,
        },
{
    let cs = components_exec(s);
    let cb = components_exec(base);
    if !comps_start_with(&cs, &cb) {
        return None;
    }
    let (h, qs) = parse_path(s);
    assert(views(qs@).take(qs.len() as int) =~= views(qs@));
    if cb.len() == 0 {
        let k = trim_back_len(&qs, qs.len());
        let sub = sublist(&qs, 0, k);
        assert(views(qs@).subrange(0, k as int) =~= views(qs@).take(k as int));
        Some(render_exec(h, &sub))
    } else {
        let hc: usize = if h == Head::Plain { 0 } else { 1 };
        assert(head_comps(h).len() == hc);
        let p = skip_comps_start(&qs, cb.len() - hc);
        let k = trim_front_start(&qs, p);
        let rest = sublist(&qs, k, qs.len());
        assert(views(qs@).subrange(k as int, qs.len() as int) =~= views(qs@).skip(k as int));
        let e = trim_back_len(&rest, rest.len());
        assert(views(rest@).take(rest.len() as int) =~= views(rest@));
        let kept = sublist(&rest, 0, e);
        assert(views(rest@).subrange(0, e as int) =~= views(rest@).take(e as int));
        Some(join_exec(&kept))
    }
}

} // verus!
