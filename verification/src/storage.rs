//! Storage backends for module content: an ext4 image or a tmpfs.

use vstd::prelude::*;

verus! {

broadcast use vstd::string::group_string_axioms;

/// What every storage backend offers to the mount sequence.
pub trait StorageBackend {
    fn commit(&mut self, disable_umount: bool) -> Result<(), String>;

    fn mount_point(&self) -> &str;

    fn mode(&self) -> &str;
}

pub struct Ext4Backend {
    pub mount_point: String,
    pub mode: String,
}

impl Ext4Backend {
    pub fn new(mount_point: &str) -> (r: Self)
        ensures
            r.mount_point@ == mount_point@,
            r.mode@ == "ext4"@,
    {
        Ext4Backend { mount_point: mount_point.to_owned(), mode: "ext4".to_owned() }
    }
}

impl StorageBackend for Ext4Backend {
    /// Nothing is left to do for an ext4 image.
    fn commit(&mut self, disable_umount: bool) -> (r: Result<(), String>)
        ensures
            r is Ok,
            *final(self) == *old(self),
    {
        Ok(())
    }

    fn mount_point(&self) -> (r: &str)
        ensures
            r@ == self.mount_point@,
    {
        self.mount_point.as_str()
    }

    fn mode(&self) -> (r: &str)
        ensures
            r@ == self.mode@,
    {
        self.mode.as_str()
    }
}

pub struct TmpfsBackend {
    pub mount_point: String,
    pub mode: String,
}

impl TmpfsBackend {
    pub fn new(mount_point: &str) -> (r: Self)
        ensures
            r.mount_point@ == mount_point@,
            r.mode@ == "tmpfs"@,
    {
        TmpfsBackend { mount_point: mount_point.to_owned(), mode: "tmpfs".to_owned() }
    }
}

impl StorageBackend for TmpfsBackend {
    /// Nothing is left to do for a tmpfs.
    fn commit(&mut self, disable_umount: bool) -> (r: Result<(), String>)
        ensures
            r is Ok,
            *final(self) == *old(self),
    {
        Ok(())
    }

    fn mount_point(&self) -> (r: &str)
        ensures
            r@ == self.mount_point@,
    {
        self.mount_point.as_str()
    }

    fn mode(&self) -> (r: &str)
        ensures
            r@ == self.mode@,
    {
        self.mode.as_str()
    }
}

} // verus!
