//! Unix path strings, modelled the way the standard library reads them:
//! a path is an optional head (`/` or a leading `.`) followed by a body of
//! pieces separated by `/`.

use vstd::prelude::*;

verus! {

/// The head of a path: nothing, the root directory, or a leading `.`.
#[derive(PartialEq, Eq, Structural, Clone, Copy, Debug)]
pub enum Head {
    Plain,
    Root,
    Cur,
}

/// One component of a path, as `Path::components` yields it on Unix.
pub ghost enum Comp {
    Root,
    Cur,
    Parent,
    Normal(Seq<char>),
}

/// State of a left-to-right split on `/`: finished pieces and the piece in progress.
pub open spec fn split_state(s: Seq<char>) -> (Seq<Seq<char>>, Seq<char>)
    decreases s.len(),
{
    if s.len() == 0 {
        (Seq::empty(), Seq::empty())
    } else {
        let st = split_state(s.drop_last());
        if s.last() == '/' {
            (st.0.push(st.1), Seq::empty())
        } else {
            (st.0, st.1.push(s.last()))
        }
    }
}

/// The pieces of `s` between separators (at least one, possibly empty).
pub open spec fn pieces(s: Seq<char>) -> Seq<Seq<char>> {
    split_state(s).0.push(split_state(s).1)
}

pub open spec fn head_of(s: Seq<char>) -> Head {
    if s.len() > 0 && s[0] == '/' {
        Head::Root
    } else if s.len() > 0 && s[0] == '.' && (s.len() == 1 || s[1] == '/') {
        Head::Cur
    } else {
        Head::Plain
    }
}

pub open spec fn body_of(s: Seq<char>) -> Seq<char> {
    if head_of(s) == Head::Plain {
        s
    } else {
        s.drop_first()
    }
}

pub open spec fn head_str(h: Head) -> Seq<char> {
    match h {
        Head::Plain => Seq::empty(),
        Head::Root => seq!['/'],
        Head::Cur => seq!['.'],
    }
}

/// Pieces joined with `/`.
pub open spec fn join(qs: Seq<Seq<char>>) -> Seq<char>
    decreases qs.len(),
{
    if qs.len() == 0 {
        Seq::empty()
    } else if qs.len() == 1 {
        qs[0]
    } else {
        join(qs.drop_last()) + seq!['/'] + qs.last()
    }
}

pub open spec fn render(h: Head, qs: Seq<Seq<char>>) -> Seq<char> {
    head_str(h) + join(qs)
}

/// A piece that names no component: empty, or a `.` that is not the head.
pub open spec fn meaningless(q: Seq<char>) -> bool {
    q.len() == 0 || q == seq!['.']
}

pub open spec fn is_dotdot(q: Seq<char>) -> bool {
    q == seq!['.', '.']
}

pub open spec fn trim_back(qs: Seq<Seq<char>>) -> Seq<Seq<char>>
    decreases qs.len(),
{
    if qs.len() > 0 && meaningless(qs.last()) {
        trim_back(qs.drop_last())
    } else {
        qs
    }
}

pub open spec fn trim_front(qs: Seq<Seq<char>>) -> Seq<Seq<char>>
    decreases qs.len(),
{
    if qs.len() > 0 && meaningless(qs[0]) {
        trim_front(qs.drop_first())
    } else {
        qs
    }
}

pub open spec fn head_comps(h: Head) -> Seq<Comp> {
    match h {
        Head::Plain => Seq::empty(),
        Head::Root => seq![Comp::Root],
        Head::Cur => seq![Comp::Cur],
    }
}

pub open spec fn piece_comp(q: Seq<char>) -> Comp {
    if is_dotdot(q) {
        Comp::Parent
    } else {
        Comp::Normal(q)
    }
}

pub open spec fn body_comps(qs: Seq<Seq<char>>) -> Seq<Comp>
    decreases qs.len(),
{
    if qs.len() == 0 {
        Seq::empty()
    } else if meaningless(qs.last()) {
        body_comps(qs.drop_last())
    } else {
        body_comps(qs.drop_last()).push(piece_comp(qs.last()))
    }
}

/// The components of a path (`Path::components` on Unix).
pub open spec fn components(s: Seq<char>) -> Seq<Comp> {
    head_comps(head_of(s)) + body_comps(pieces(body_of(s)))
}

/// Path equality: two paths are equal when their components are.
pub open spec fn path_eq(a: Seq<char>, b: Seq<char>) -> bool {
    components(a) == components(b)
}

pub open spec fn is_absolute(s: Seq<char>) -> bool {
    s.len() > 0 && s[0] == '/'
}

/// `PathBuf::push`: an absolute addition replaces the path, otherwise it is
/// appended with a separator where one is missing.
pub open spec fn push(buf: Seq<char>, p: Seq<char>) -> Seq<char> {
    if is_absolute(p) {
        p
    } else if buf.len() > 0 && buf.last() != '/' {
        buf + seq!['/'] + p
    } else {
        buf + p
    }
}

/// `Path::parent`.
pub open spec fn parent(s: Seq<char>) -> Option<Seq<char>> {
    let h = head_of(s);
    let t = trim_back(pieces(body_of(s)));
    if t.len() > 0 {
        Some(render(h, trim_back(t.drop_last())))
    } else if h == Head::Cur {
        Some(Seq::empty())
    } else {
        None
    }
}

/// `Path::file_name`.
pub open spec fn file_name(s: Seq<char>) -> Option<Seq<char>> {
    let t = trim_back(pieces(body_of(s)));
    if t.len() > 0 && !is_dotdot(t.last()) {
        Some(t.last())
    } else {
        None
    }
}

/// The pieces left after `m` component-bearing pieces have been read from the front.
pub open spec fn skip_comps(qs: Seq<Seq<char>>, m: nat) -> Seq<Seq<char>>
    decreases qs.len(),
{
    if m == 0 || qs.len() == 0 {
        qs
    } else if meaningless(qs[0]) {
        skip_comps(qs.drop_first(), m)
    } else {
        skip_comps(qs.drop_first(), (m - 1) as nat)
    }
}

/// `Path::strip_prefix`: defined when the components of `base` start those of `s`.
pub open spec fn strip_prefix(s: Seq<char>, base: Seq<char>) -> Option<Seq<char>> {
    let cs = components(s);
    let cb = components(base);
    if cb.len() <= cs.len() && cs.take(cb.len() as int) == cb {
        let h = head_of(s);
        let qs = pieces(body_of(s));
        if cb.len() == 0 {
            Some(render(h, trim_back(qs)))
        } else {
            let m = (cb.len() - head_comps(h).len()) as nat;
            Some(join(trim_back(trim_front(skip_comps(qs, m)))))
        }
    } else {
        None
    }
}

} // verus!

verus! {

/// Joining the pieces of a string gives the string back.
pub proof fn lemma_join_pieces(s: Seq<char>)
    ensures
        join(pieces(s)) == s,
    decreases s.len(),
{
    if s.len() == 0 {
        assert(pieces(s) =~= seq![Seq::<char>::empty()]);
        assert(join(pieces(s)) =~= s);
    } else {
        let y = s.drop_last();
        lemma_join_pieces(y);
        let st = split_state(y);
        let c = s.last();
        if c == '/' {
            let p = st.0.push(st.1).push(Seq::<char>::empty());
            assert(pieces(s) == p);
            assert(p.drop_last() == st.0.push(st.1));
            assert(join(p) =~= y + seq!['/'] + Seq::<char>::empty());
            assert(s =~= y + seq!['/']);
        } else {
            let p = st.0.push(st.1.push(c));
            assert(pieces(s) == p);
            if st.0.len() == 0 {
                assert(join(st.0.push(st.1)) == st.1);
                assert(join(p) == st.1.push(c));
                assert(s =~= y.push(c));
            } else {
                assert(p.drop_last() =~= st.0);
                assert(st.0.push(st.1).drop_last() =~= st.0);
                assert(join(st.0.push(st.1)) == join(st.0) + seq!['/'] + st.1);
                assert(join(p) == join(st.0) + seq!['/'] + st.1.push(c));
                assert(join(p) =~= y.push(c));
                assert(s =~= y.push(c));
            }
        }
    }
}

/// `trim_back` keeps a prefix.
pub proof fn lemma_trim_back_prefix(qs: Seq<Seq<char>>)
    ensures
        trim_back(qs).len() <= qs.len(),
        trim_back(qs) == qs.take(trim_back(qs).len() as int),
    decreases qs.len(),
{
    if qs.len() > 0 && meaningless(qs.last()) {
        lemma_trim_back_prefix(qs.drop_last());
        let t = trim_back(qs.drop_last());
        assert(qs.drop_last().take(t.len() as int) =~= qs.take(t.len() as int));
    } else {
        assert(qs.take(qs.len() as int) =~= qs);
    }
}

/// Joining a longer prefix never gives a shorter string; each extra piece adds its length.
pub proof fn lemma_join_prefix_len(qs: Seq<Seq<char>>, k: int)
    requires
        0 <= k < qs.len(),
    ensures
        join(qs.take(k)).len() + qs[k].len() <= join(qs).len(),
    decreases qs.len() - k,
{
    let t = qs.take(k + 1);
    assert(t.drop_last() =~= qs.take(k));
    assert(t.last() == qs[k]);
    assert(join(qs.take(k)).len() + qs[k].len() <= join(t).len());
    if k + 1 < qs.len() {
        lemma_join_prefix_len(qs, k + 1);
    } else {
        assert(t =~= qs);
    }
}

/// A parent is strictly shorter than the path it was taken from.
pub proof fn lemma_parent_shorter(s: Seq<char>)
    requires
        parent(s) is Some,
    ensures
        parent(s)->0.len() < s.len(),
{
    let h = head_of(s);
    let b = body_of(s);
    let p = pieces(b);
    lemma_join_pieces(b);
    assert(s =~= head_str(h) + b);
    let t = trim_back(p);
    lemma_trim_back_prefix(p);
    if t.len() > 0 {
        let tl = t.len() as int;
        assert(t.last() == p[tl - 1]);
        assert(!meaningless(t.last())) by {
            if tl < p.len() as int {
                assert(t == trim_back(p));
            }
            lemma_trim_back_last(p);
        }
        let d = t.drop_last();
        assert(d =~= p.take(tl - 1));
        lemma_trim_back_prefix(d);
        let r = trim_back(d);
        let rl = r.len() as int;
        assert(r =~= p.take(rl));
        if rl < tl - 1 {
            lemma_join_prefix_len(p.take(tl - 1), rl);
            assert(p.take(tl - 1).take(rl) =~= p.take(rl));
        }
        lemma_join_prefix_len(p, tl - 1);
    }
}

/// What `trim_back` leaves does not end in a meaningless piece.
pub proof fn lemma_trim_back_last(qs: Seq<Seq<char>>)
    ensures
        trim_back(qs).len() > 0 ==> !meaningless(trim_back(qs).last()),
    decreases qs.len(),
{
    if qs.len() > 0 && meaningless(qs.last()) {
        lemma_trim_back_last(qs.drop_last());
    }
}

} // verus!
