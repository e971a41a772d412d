//! Small system helpers: runtime mount points, mount lookups, link targets
//! and the verdict on an image check.

use vstd::prelude::*;
use crate::disk::{read_link, LinkProbe};
use crate::normalize::{normalize, normalize_path};
use crate::path::{is_absolute, parent, push};
use crate::path_exec::{chars_eq, is_absolute_exec, parent_exec, push_exec};
use crate::recovery::names;
use crate::text::{chars_of, push_char, string_from_chars};

verus! {

broadcast use vstd::string::group_string_axioms;

pub open spec fn is_ascii_alphanumeric(c: char) -> bool {
    ('0' <= c && c <= '9') || ('A' <= c && c <= 'Z') || ('a' <= c && c <= 'z')
}

/// `fastrand::alphanumeric`: a random character drawn from `A-Z`, `a-z` and `0-9`.
#[verifier::external_body]
fn random_alphanumeric() -> (c: char)
    ensures
        is_ascii_alphanumeric(c),
{
    fastrand::alphanumeric()
}

/// The runtime mount point named by the drawn characters: `/mnt/` followed by them.
pub fn mnt_from_draws(draws: &Vec<char>) -> (r: String)
    ensures
        r@ == "/mnt/"@ + draws@,
{
    let mut r = String::new();
    r.append("/mnt/");
    let ghost head = r@;
    assert(head =~= "/mnt/"@);
    let mut k: usize = 0;
    while k < draws.len()
        invariant
            k <= draws.len(),
            head == "/mnt/"@,
            r@ == head + draws@.take(k as int),
        decreases draws.len() - k,
    {
        push_char(&mut r, draws[k]);
        assert(draws@.take(k + 1) =~= draws@.take(k as int).push(draws@[k as int]));
        assert(r@ =~= head + draws@.take(k + 1));
        k += 1;
    }
    assert(draws@.take(draws.len() as int) =~= draws@);
    r
}

/// A fresh runtime mount point: `/mnt/` followed by ten random alphanumeric
/// characters, drawn one by one and named by `mnt_from_draws`.
pub fn get_mnt() -> (r: String)
    ensures
        exists|draws: Seq<char>|
            draws.len() == 10 && (forall|i: int|
                0 <= i < 10 ==> is_ascii_alphanumeric(#[trigger] draws[i])) && r@ == "/mnt/"@
                + draws,
        r@.len() == 15,
        r@.take(5) == "/mnt/"@,
        forall|i: int| 5 <= i < 15 ==> is_ascii_alphanumeric(#[trigger] r@[i]),
{
    let mut draws: Vec<char> = Vec::new();
    while draws.len() < 10
        invariant
            draws.len() <= 10,
            forall|i: int| 0 <= i < draws.len() ==> is_ascii_alphanumeric(#[trigger] draws@[i]),
        decreases 10 - draws.len(),
    {
        draws.push(random_alphanumeric());
    }
    let r = mnt_from_draws(&draws);
    proof {
        reveal_strlit("/mnt/");
        let d = draws@;
        assert(r@.take(5) =~= "/mnt/"@);
        assert forall|i: int| 5 <= i < 15 implies is_ascii_alphanumeric(#[trigger] r@[i]) by {
            assert(r@[i] == d[i - 5]);
        }
    }
    r
}

/// The mount point text looked up for a path: `/` stays, otherwise trailing `/` are dropped.
pub open spec fn mount_search_key(p: Seq<char>) -> Seq<char> {
    if p == "/"@ {
        p
    } else {
        trim_end_slashes(p)
    }
}

/// `str::trim_end_matches('/')`.
pub open spec fn trim_end_slashes(p: Seq<char>) -> Seq<char>
    decreases p.len(),
{
    if p.len() > 0 && p.last() == '/' {
        trim_end_slashes(p.drop_last())
    } else {
        p
    }
}

fn is_slash_only(p: &Vec<char>) -> (r: bool)
    ensures
        r == (p@ == "/"@),
{
    let s = chars_of("/");
    chars_eq(p, &s)
}

/// Whether `path` is one of the given mount points (`is_mounted`, with the
/// mount table read by the caller).
pub fn is_mounted_in(path: &str, mount_points: &Vec<String>) -> (r: bool)
    ensures
        r == names(mount_points@).contains(mount_search_key(path@)),
{
    let p = chars_of(path);
    let mut hi = p.len();
    let ghost key = mount_search_key(p@);
    if !is_slash_only(&p) {
        assert(p@.take(hi as int) =~= p@);
        while hi > 0 && p[hi - 1] == '/'
            invariant
                hi <= p.len(),
                mount_search_key(p@) == trim_end_slashes(p@.take(hi as int)),
                p@ != "/"@,
            decreases hi,
        {
            assert(p@.take(hi as int).drop_last() =~= p@.take(hi - 1));
            hi -= 1;
        }
    } else {
        assert(p@.take(hi as int) =~= p@);
    }
    let mut search: Vec<char> = Vec::new();
    let mut j: usize = 0;
    while j < hi
        invariant
            j <= hi <= p.len(),
            search@ == p@.take(j as int),
        decreases hi - j,
    {
        search.push(p[j]);
        assert(search@ =~= p@.take(j + 1));
        j += 1;
    }
    assert(search@ == key) by {
        if p@ != "/"@ {
        }
    }
    let mut i: usize = 0;
    while i < mount_points.len()
        invariant
            i <= mount_points.len(),
            search@ == key,
            key == mount_search_key(path@),
            forall|k: int| 0 <= k < i ==> names(mount_points@)[k] != key,
        decreases mount_points.len() - i,
    {
        let m = chars_of(mount_points[i].as_str());
        if chars_eq(&m, &search) {
            assert(names(mount_points@)[i as int] == key);
            return true;
        }
        i += 1;
    }
    false
}


/// The normalized place a path stands for, given what the link at it points to.
pub open spec fn link_resolution(path: Seq<char>, link: Option<Seq<char>>) -> Seq<char> {
    match link {
        Some(t) => if is_absolute(t) {
            normalize(t)
        } else {
            normalize(
                push(
                    match parent(path) {
                        Some(p) => p,
                        None => "/"@,
                    },
                    t,
                ),
            )
        },
        None => normalize(path),
    }
}

/// Resolves one level of symbolic link lexically: an absolute target is
/// normalized, a relative one is taken from the link's directory, and a
/// path that is not a link is normalized itself.
pub fn resolve_link_target(path: &str, link: Option<&str>) -> (r: String)
    ensures
        r@ == link_resolution(path@, match link {
            Some(t) => Some(t@),
            None => None,
        }),
{
    match link {
        Some(t) => {
            let tc = chars_of(t);
            if is_absolute_exec(&tc) {
                normalize_path(t)
            } else {
                let pc = chars_of(path);
                let dir = match parent_exec(&pc) {
                    Some(d) => d,
                    None => chars_of("/"),
                };
                let joined = push_exec(&dir, &tc);
                let js = string_from_chars(&joined);
                normalize_path(js.as_str())
            }
        },
        None => normalize_path(path),
    }
}

/// Reads the link at `path` (if it is one) and resolves it. The second part
/// of the result records the path the disk was asked about, `path` itself,
/// and the link target it answered (`None` when `path` is not a link, or its
/// target is not valid UTF-8); the result is the resolution of that answer.
pub fn resolve_link_path(path: &str) -> (r: (String, LinkProbe))
    ensures
        r.1@.0 == path@,
        r.0@ == link_resolution(path@, r.1@.1),
{
    let probe = read_link(path);
    let resolved = match probe.target() {
        Some(t) => resolve_link_target(path, Some(t)),
        None => resolve_link_target(path, None),
    };
    (resolved, probe)
}

/// Why an image check failed.
#[derive(Debug, PartialEq, Eq, Structural, Clone, Copy)]
pub enum ImageRepairError {
    /// `e2fsck` exited with a code above 2 (errors left uncorrected).
    ExitCode(i32),
    /// `e2fsck` was ended by a signal.
    Signal,
}

/// The verdict on an `e2fsck -y -f` run from its exit code: 0 to 2 are fine.
pub fn e2fsck_verdict(code: Option<i32>) -> (r: Result<(), ImageRepairError>)
    ensures
        r == (match code {
            Some(c) => if c > 2 {
                Err(ImageRepairError::ExitCode(c))
            } else {
                Ok(())
            },
            None => Err(ImageRepairError::Signal),
        }),
{
    match code {
        Some(c) => if c > 2 {
            Err(ImageRepairError::ExitCode(c))
        } else {
            Ok(())
        },
        None => Err(ImageRepairError::Signal),
    }
}

} // verus!
