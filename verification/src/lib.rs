use vstd::prelude::*;

pub mod conf;
pub mod config;
pub mod disk;
pub mod hymofs_rules;
pub mod hymofs_status;
pub mod kasumi_cli;
pub mod logs;
pub mod magic_mount;
pub mod normalize;
pub mod nuke;
pub mod order;
pub mod partitions;
pub mod path;
pub mod path_exec;
pub mod recovery;
pub mod resolve;
pub mod storage;
pub mod sync;
pub mod sysutil;
pub mod text;

verus! {

} // verus!
