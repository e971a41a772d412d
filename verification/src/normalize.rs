//! Lexical path normalization: `.` is dropped and `..` removes the previous name.

use vstd::prelude::*;
use crate::path::{
    body_comps, body_of, components, head_comps, head_of, is_absolute, is_dotdot, join,
    meaningless, piece_comp, pieces, split_state, Comp, Head,
};
use crate::path_exec::{components_exec, copy_chars, views, PathComp, append_chars, join_exec};
use crate::text::{chars_of, string_from_chars};

verus! {

/// One step of normalization over a stack of names.
pub open spec fn norm_step(stack: Seq<Seq<char>>, c: Comp) -> Seq<Seq<char>> {
    match c {
        Comp::Root => Seq::empty(),
        Comp::Cur => stack,
        Comp::Parent => if stack.len() > 0 {
            stack.drop_last()
        } else {
            stack
        },
        Comp::Normal(v) => stack.push(v),
    }
}

/// The names left after reading the components in order.
pub open spec fn norm_stack(cs: Seq<Comp>) -> Seq<Seq<char>>
    decreases cs.len(),
{
    if cs.len() == 0 {
        Seq::empty()
    } else {
        norm_step(norm_stack(cs.drop_last()), cs.last())
    }
}

/// The normal form of a path: a root if it had one, then the remaining names.
pub open spec fn normalize(s: Seq<char>) -> Seq<char> {
    let st = norm_stack(components(s));
    if head_of(s) == Head::Root {
        seq!['/'] + join(st)
    } else {
        join(st)
    }
}

/// A name that can stand in a normalized path.
pub open spec fn clean_name(v: Seq<char>) -> bool {
    &&& !meaningless(v)
    &&& !is_dotdot(v)
    &&& forall|i: int| 0 <= i < v.len() ==> v[i] != '/'
}

pub open spec fn all_clean(st: Seq<Seq<char>>) -> bool {
    forall|i: int| 0 <= i < st.len() ==> clean_name(#[trigger] st[i])
}

/// Normalizes a path without touching the file system.
pub fn normalize_path(path: &str) -> (r: String)
    ensures
        r@ == normalize(path@),
{
    let s = chars_of(path);
    let cs = components_exec(&s);
    let mut stack: Vec<Vec<char>> = Vec::new();
    let mut i: usize = 0;
    let ghost cv = crate::path_exec::comps_view(cs@);
    while i < cs.len()
        invariant
            i <= cs.len(),
            cv == crate::path_exec::comps_view(cs@),
            views(stack@) == norm_stack(cv.take(i as int)),
        decreases cs.len() - i,
    {
        let ghost t = cv.take(i + 1);
        assert(t.drop_last() =~= cv.take(i as int));
        assert(t.last() == crate::path_exec::comp_view(cs@[i as int]));
        let ghost prev = stack@;
        match &cs[i] {
            PathComp::Root => {
                stack = Vec::new();
                assert(views(stack@) =~= norm_stack(t));
            },
            PathComp::Cur => {},
            PathComp::Parent => {
                if stack.len() > 0 {
                    stack.pop();
                    assert(views(stack@) =~= views(prev).drop_last());
                }
            },
            PathComp::Normal(v) => {
                let c = copy_chars(v);
                stack.push(c);
                assert(views(stack@) =~= views(prev).push(c@));
            },
        }
        i += 1;
    }
    assert(cv.take(cs.len() as int) =~= cv);
    let j = join_exec(&stack);
    let mut out: Vec<char> = Vec::new();
    if s.len() > 0 && s[0] == '/' {
        out.push('/');
    }
    append_chars(&mut out, &j);
    proof {
        if head_of(s@) == Head::Root {
            assert(out@ =~= seq!['/'] + join(views(stack@)));
        } else {
            assert(out@ =~= join(views(stack@)));
        }
    }
    string_from_chars(&out)
}

/// Splitting after appending a separator-free tail extends the piece in progress.
pub proof fn lemma_split_append(x: Seq<char>, y: Seq<char>)
    requires
        forall|i: int| 0 <= i < y.len() ==> y[i] != '/',
    ensures
        split_state(x + y) == (split_state(x).0, split_state(x).1 + y),
    decreases y.len(),
{
    if y.len() == 0 {
        assert(x + y =~= x);
        assert(split_state(x).1 + y =~= split_state(x).1);
    } else {
        let y0 = y.drop_last();
        lemma_split_append(x, y0);
        assert((x + y).drop_last() =~= x + y0);
        assert((x + y).last() == y.last());
        assert(split_state(x).1 + y0.push(y.last()) =~= split_state(x).1 + y);
        assert((split_state(x).1 + y0).push(y.last()) =~= split_state(x).1 + y);
    }
}

/// Joining separator-free pieces and splitting again gives them back.
pub proof fn lemma_pieces_join(st: Seq<Seq<char>>)
    requires
        st.len() > 0,
        forall|k: int, i: int| 0 <= k < st.len() && 0 <= i < st[k].len() ==> st[k][i] != '/',
    ensures
        pieces(join(st)) == st,
        split_state(join(st)) == (st.drop_last(), st.last()),
    decreases st.len(),
{
    if st.len() == 1 {
        lemma_split_append(Seq::empty(), st[0]);
        assert(Seq::<char>::empty() + st[0] =~= st[0]);
        assert(split_state(Seq::<char>::empty()) == (Seq::<Seq<char>>::empty(), Seq::<char>::empty()));
        assert(Seq::<char>::empty() + st[0] =~= st[0]);
        assert(st.drop_last() =~= Seq::<Seq<char>>::empty());
        assert(pieces(join(st)) =~= st);
    } else {
        let d = st.drop_last();
        lemma_pieces_join(d);
        let x = join(d) + seq!['/'];
        assert(x.drop_last() =~= join(d));
        assert(split_state(x) == (d.drop_last().push(d.last()), Seq::<char>::empty()));
        assert(d.drop_last().push(d.last()) =~= d);
        lemma_split_append(x, st.last());
        assert(Seq::<char>::empty() + st.last() =~= st.last());
        assert(join(st) == x + st.last());
        assert(pieces(join(st)) =~= st);
    }
}

/// Pieces never contain a separator.
pub proof fn lemma_split_no_sep(s: Seq<char>)
    ensures
        forall|k: int, i: int|
            0 <= k < split_state(s).0.len() && 0 <= i < split_state(s).0[k].len()
                ==> split_state(s).0[k][i] != '/',
        forall|i: int| 0 <= i < split_state(s).1.len() ==> split_state(s).1[i] != '/',
    decreases s.len(),
{
    if s.len() > 0 {
        let y = s.drop_last();
        lemma_split_no_sep(y);
        let st = split_state(y);
        if s.last() == '/' {
            let d = st.0.push(st.1);
            assert(split_state(s).0 == d);
            assert forall|k: int, i: int| 0 <= k < d.len() && 0 <= i < d[k].len() implies d[k][i] != '/' by {
                if k < st.0.len() {
                    assert(d[k] == st.0[k]);
                } else {
                    assert(d[k] == st.1);
                }
            }
        } else {
            let c = st.1.push(s.last());
            assert(split_state(s).1 == c);
            assert forall|i: int| 0 <= i < c.len() implies c[i] != '/' by {
                if i < st.1.len() {
                    assert(c[i] == st.1[i]);
                }
            }
        }
    }
}

pub proof fn lemma_pieces_no_sep(s: Seq<char>)
    ensures
        forall|k: int, i: int| 0 <= k < pieces(s).len() && 0 <= i < pieces(s)[k].len()
            ==> pieces(s)[k][i] != '/',
{
    lemma_split_no_sep(s);
    assert forall|k: int, i: int| 0 <= k < pieces(s).len() && 0 <= i < pieces(s)[k].len()
        implies pieces(s)[k][i] != '/' by {
        if k < split_state(s).0.len() {
        } else {
            assert(pieces(s)[k] == split_state(s).1);
        }
    }
}

/// Every name on the normalization stack is clean, given clean normal components.
pub proof fn lemma_norm_stack_clean(cs: Seq<Comp>)
    requires
        forall|i: int| 0 <= i < cs.len() ==> (#[trigger] cs[i] matches Comp::Normal(v) ==> clean_name(v)),
    ensures
        all_clean(norm_stack(cs)),
    decreases cs.len(),
{
    if cs.len() > 0 {
        let d = cs.drop_last();
        assert forall|i: int| 0 <= i < d.len() implies (#[trigger] d[i] matches Comp::Normal(v) ==> clean_name(v)) by {
            assert(d[i] == cs[i]);
        }
        lemma_norm_stack_clean(d);
        let last = cs.last();
        assert(cs[cs.len() - 1] == last);
    }
}

/// Body components are clean names, `..` or nothing else.
pub proof fn lemma_body_comps_clean(qs: Seq<Seq<char>>)
    requires
        forall|k: int, i: int| 0 <= k < qs.len() && 0 <= i < qs[k].len() ==> qs[k][i] != '/',
    ensures
        forall|i: int| 0 <= i < body_comps(qs).len() ==>
            (#[trigger] body_comps(qs)[i] matches Comp::Normal(v) ==> clean_name(v)),
        forall|i: int| 0 <= i < body_comps(qs).len() ==> !(#[trigger] body_comps(qs)[i] is Root),
        forall|i: int| 0 <= i < body_comps(qs).len() ==> !(#[trigger] body_comps(qs)[i] is Cur),
    decreases qs.len(),
{
    if qs.len() > 0 {
        let d = qs.drop_last();
        assert forall|k: int, i: int| 0 <= k < d.len() && 0 <= i < d[k].len() implies d[k][i] != '/' by {
            assert(d[k] == qs[k]);
        }
        lemma_body_comps_clean(d);
        let q = qs.last();
        assert(qs[qs.len() - 1] == q);
        if !meaningless(q) {
            let b = body_comps(qs);
            assert(b == body_comps(d).push(piece_comp(q)));
            assert forall|i: int| 0 <= i < b.len() implies (#[trigger] b[i] matches Comp::Normal(v) ==> clean_name(v)) by {
                if i < body_comps(d).len() {
                    assert(b[i] == body_comps(d)[i]);
                }
            }
            assert forall|i: int| 0 <= i < b.len() implies !(#[trigger] b[i] is Root) by {
                if i < body_comps(d).len() {
                    assert(b[i] == body_comps(d)[i]);
                }
            }
            assert forall|i: int| 0 <= i < b.len() implies !(#[trigger] b[i] is Cur) by {
                if i < body_comps(d).len() {
                    assert(b[i] == body_comps(d)[i]);
                }
            }
        }
    }
}

pub open spec fn normals(st: Seq<Seq<char>>) -> Seq<Comp> {
    st.map_values(|v: Seq<char>| Comp::Normal(v))
}

/// Body components of clean names are those names.
pub proof fn lemma_body_comps_of_clean(st: Seq<Seq<char>>)
    requires
        all_clean(st),
    ensures
        body_comps(st) == normals(st),
    decreases st.len(),
{
    if st.len() > 0 {
        let d = st.drop_last();
        assert(all_clean(d)) by {
            assert forall|i: int| 0 <= i < d.len() implies clean_name(#[trigger] d[i]) by {
                assert(d[i] == st[i]);
            }
        }
        lemma_body_comps_of_clean(d);
        assert(clean_name(st[st.len() - 1]));
        assert(normals(st) =~= normals(d).push(Comp::Normal(st.last())));
    } else {
        assert(normals(st) =~= Seq::<Comp>::empty());
    }
}

/// Reading back the normal names of a stack rebuilds the stack.
pub proof fn lemma_norm_stack_normals(pre: Seq<Comp>, st: Seq<Seq<char>>)
    requires
        pre == Seq::<Comp>::empty() || pre == seq![Comp::Root],
    ensures
        norm_stack(pre + normals(st)) == st,
    decreases st.len(),
{
    if st.len() == 0 {
        assert(pre + normals(st) =~= pre);
        if pre.len() == 1 {
            assert(pre.drop_last() =~= Seq::<Comp>::empty());
        }
    } else {
        let d = st.drop_last();
        lemma_norm_stack_normals(pre, d);
        assert((pre + normals(st)).drop_last() =~= pre + normals(d));
        assert((pre + normals(st)).last() == Comp::Normal(st.last()));
        assert(d.push(st.last()) =~= st);
    }
}

/// The components of a rendered normal form are its root (if any) and its names.
pub proof fn lemma_components_of_normal(root: bool, st: Seq<Seq<char>>)
    requires
        all_clean(st),
    ensures
        components(if root { seq!['/'] + join(st) } else { join(st) })
            == (if root { seq![Comp::Root] } else { Seq::<Comp>::empty() }) + normals(st),
        head_of(if root { seq!['/'] + join(st) } else { join(st) }) == (if root {
            Head::Root
        } else {
            Head::Plain
        }),
{
    let x = if root { seq!['/'] + join(st) } else { join(st) };
    lemma_body_comps_of_clean(st);
    if st.len() > 0 {
        assert forall|k: int, i: int| 0 <= k < st.len() && 0 <= i < st[k].len() implies st[k][i] != '/' by {
            assert(clean_name(st[k]));
        }
        lemma_pieces_join(st);
        lemma_join_starts(st);
    }
    if root {
        assert(x.drop_first() =~= join(st));
        assert(head_of(x) == Head::Root);
        if st.len() == 0 {
            lemma_empty_body_comps();
            assert(body_of(x) =~= Seq::<char>::empty());
            assert(normals(st) =~= Seq::<Comp>::empty());
        }
    } else {
        if st.len() == 0 {
            lemma_empty_body_comps();
            assert(x =~= Seq::<char>::empty());
            assert(body_of(x) =~= Seq::<char>::empty());
            assert(normals(st) =~= Seq::<Comp>::empty());
        } else {
            assert(clean_name(st[0]));
            assert(x[0] == st[0][0]);
            if st[0].len() >= 2 {
                assert(x[1] == st[0][1]);
                assert(st[0][1] != '/');
            } else {
                assert(st[0] =~= seq![st[0][0]]);
            }
            assert(head_of(x) == Head::Plain);
        }
        assert(Seq::<Comp>::empty() + normals(st) =~= normals(st));
    }
}

/// The empty string has one empty piece and no components.
pub proof fn lemma_empty_body_comps()
    ensures
        pieces(Seq::<char>::empty()) == seq![Seq::<char>::empty()],
        body_comps(pieces(Seq::<char>::empty())) == Seq::<Comp>::empty(),
{
    assert(pieces(Seq::<char>::empty()) =~= seq![Seq::<char>::empty()]);
    let p = seq![Seq::<char>::empty()];
    assert(meaningless(p.last()));
    assert(p.drop_last() =~= Seq::<Seq<char>>::empty());
    assert(body_comps(p) == body_comps(p.drop_last()));
    assert(body_comps(Seq::<Seq<char>>::empty()) == Seq::<Comp>::empty());
}

/// A join of clean names starts with the first name.
pub proof fn lemma_join_starts(st: Seq<Seq<char>>)
    requires
        st.len() > 0,
        all_clean(st),
    ensures
        join(st).len() >= st[0].len(),
        forall|i: int| 0 <= i < st[0].len() ==> join(st)[i] == st[0][i],
        st[0].len() == 1 ==> (join(st).len() == 1 || join(st)[1] == '/'),
    decreases st.len(),
{
    if st.len() > 1 {
        let d = st.drop_last();
        assert(all_clean(d)) by {
            assert forall|i: int| 0 <= i < d.len() implies clean_name(#[trigger] d[i]) by {
                assert(d[i] == st[i]);
            }
        }
        lemma_join_starts(d);
        assert(d[0] == st[0]);
        if st[0].len() == 1 && join(d).len() == 1 {
            assert(join(st)[1] == '/');
        }
    }
}

/// Law: normalizing twice is the same as normalizing once.
pub proof fn lemma_normalize_idempotent(s: Seq<char>)
    ensures
        normalize(normalize(s)) == normalize(s),
{
    let cs = components(s);
    let st = norm_stack(cs);
    let b = pieces(body_of(s));
    lemma_pieces_no_sep(body_of(s));
    lemma_body_comps_clean(b);
    let hc = head_comps(head_of(s));
    assert forall|i: int| 0 <= i < cs.len() implies (#[trigger] cs[i] matches Comp::Normal(v) ==> clean_name(v)) by {
        if i >= hc.len() {
            assert(cs[i] == body_comps(b)[i - hc.len()]);
        }
    }
    lemma_norm_stack_clean(cs);
    let root = head_of(s) == Head::Root;
    lemma_components_of_normal(root, st);
    let pre = if root { seq![Comp::Root] } else { Seq::<Comp>::empty() };
    lemma_norm_stack_normals(pre, st);
}

/// Law: the normal form is absolute exactly when the path is.
pub proof fn lemma_normalize_keeps_absolute(s: Seq<char>)
    ensures
        is_absolute(normalize(s)) == is_absolute(s),
{
    let cs = components(s);
    let st = norm_stack(cs);
    lemma_pieces_no_sep(body_of(s));
    lemma_body_comps_clean(pieces(body_of(s)));
    let hc = head_comps(head_of(s));
    assert forall|i: int| 0 <= i < cs.len() implies (#[trigger] cs[i] matches Comp::Normal(v) ==> clean_name(v)) by {
        if i >= hc.len() {
            assert(cs[i] == body_comps(pieces(body_of(s)))[i - hc.len()]);
        }
    }
    lemma_norm_stack_clean(cs);
    if st.len() > 0 {
        lemma_join_starts(st);
        assert(clean_name(st[0]));
        assert(st[0][0] != '/');
    }
}

/// Law: a normal form holds only its root and plain names: no `.`, no `..`.
pub proof fn lemma_normalize_clean(s: Seq<char>)
    ensures
        forall|i: int| 0 <= i < components(normalize(s)).len() ==> {
            let c = #[trigger] components(normalize(s))[i];
            (c is Root && i == 0) || (c matches Comp::Normal(v) && clean_name(v))
        },
{
    let cs = components(s);
    let st = norm_stack(cs);
    lemma_pieces_no_sep(body_of(s));
    lemma_body_comps_clean(pieces(body_of(s)));
    let hc = head_comps(head_of(s));
    assert forall|i: int| 0 <= i < cs.len() implies (#[trigger] cs[i] matches Comp::Normal(v) ==> clean_name(v)) by {
        if i >= hc.len() {
            assert(cs[i] == body_comps(pieces(body_of(s)))[i - hc.len()]);
        }
    }
    lemma_norm_stack_clean(cs);
    let root = head_of(s) == Head::Root;
    lemma_components_of_normal(root, st);
}

} // verus!
