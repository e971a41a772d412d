//! Questions to the file system. Each answer comes with the path that was
//! asked about, in a record that only these functions can make.

use vstd::prelude::*;

verus! {

/// An answer of the file system: the path asked about and whether it said yes.
pub struct Probe {
    path: String,
    found: bool,
}

impl View for Probe {
    type V = (Seq<char>, bool);

    closed spec fn view(&self) -> (Seq<char>, bool) {
        (self.path@, self.found)
    }
}

impl Probe {
    /// The path asked about.
    pub fn path(&self) -> (r: &str)
        ensures
            r@ == self@.0,
    {
        self.path.as_str()
    }

    /// What the file system answered.
    pub fn found(&self) -> (r: bool)
        ensures
            r == self@.1,
    {
        self.found
    }
}

/// A symbolic-link read: the path asked about and the link target returned.
pub struct LinkProbe {
    path: String,
    target: Option<String>,
}

impl View for LinkProbe {
    type V = (Seq<char>, Option<Seq<char>>);

    closed spec fn view(&self) -> (Seq<char>, Option<Seq<char>>) {
        (
            self.path@,
            match self.target {
                Some(t) => Some(t@),
                None => None,
            },
        )
    }
}

impl LinkProbe {
    /// The path asked about.
    pub fn path(&self) -> (r: &str)
        ensures
            r@ == self@.0,
    {
        self.path.as_str()
    }

    /// The link target returned, if any.
    pub fn target(&self) -> (r: Option<&str>)
        ensures
            r is Some <==> self@.1 is Some,
            r matches Some(t) ==> self@.1 == Some(t@),
    {
        match &self.target {
            Some(t) => Some(t.as_str()),
            None => None,
        }
    }
}

/// `Path::exists` from std: whether the file system has an entry at `p`
/// (following links). The answer depends on the disk, so nothing is stated of
/// it; the record holds the path asked about.
#[verifier::external_body]
pub fn path_exists(p: &str) -> (r: Probe)
    ensures
        r@.0 == p@,
{
    Probe { path: p.to_owned(), found: std::path::Path::new(p).exists() }
}

/// `Path::symlink_metadata` from std, asked only whether it succeeds: whether
/// an entry (of any kind, links not followed) is at `p`. The answer depends on
/// the disk, so nothing is stated of it; the record holds the path asked about.
#[verifier::external_body]
pub fn entry_exists(p: &str) -> (r: Probe)
    ensures
        r@.0 == p@,
{
    Probe { path: p.to_owned(), found: std::path::Path::new(p).symlink_metadata().is_ok() }
}

/// `Path::read_link` from std: the target of the symbolic link at `p`, when `p`
/// is one and its target is valid UTF-8 (otherwise none). The answer depends
/// on the disk, so nothing is stated of it; the record holds the path asked about.
#[verifier::external_body]
pub fn read_link(p: &str) -> (r: LinkProbe)
    ensures
        r@.0 == p@,
{
    let target = match std::path::Path::new(p).read_link() {
        Ok(t) => t.to_str().map(|s| s.to_owned()),
        Err(_) => None,
    };
    LinkProbe { path: p.to_owned(), target }
}

} // verus!
