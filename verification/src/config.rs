//! The configuration that the command handlers read and change.

use vstd::prelude::*;

verus! {

/// Hiding of mount entries that match a path pattern.
pub struct MountHideConfig {
    pub enabled: bool,
    pub path_pattern: String,
}

/// `statfs` spoofing for one path.
pub struct StatfsSpoofConfig {
    pub enabled: bool,
    pub path: String,
    pub spoof_f_type: u64,
}

/// Spoofed `uname` fields; an empty field is not spoofed.
pub struct KasumiUnameConfig {
    pub sysname: String,
    pub nodename: String,
    pub release: String,
    pub version: String,
    pub machine: String,
    pub domainname: String,
}

/// A `/proc/*/maps` spoofing rule, keyed by target inode and device.
pub struct KasumiMapsRuleConfig {
    pub target_ino: u64,
    pub target_dev: u64,
    pub spoofed_ino: u64,
    pub spoofed_dev: u64,
    pub spoofed_pathname: String,
}

/// A `kstat` spoofing rule, keyed by target inode and target path.
pub struct KasumiKstatRuleConfig {
    pub target_ino: u64,
    pub target_pathname: String,
    pub spoofed_ino: u64,
    pub spoofed_dev: u64,
    pub spoofed_nlink: u32,
    pub spoofed_size: i64,
    pub spoofed_atime_sec: i64,
    pub spoofed_atime_nsec: i64,
    pub spoofed_mtime_sec: i64,
    pub spoofed_mtime_nsec: i64,
    pub spoofed_ctime_sec: i64,
    pub spoofed_ctime_nsec: i64,
    pub spoofed_blksize: u64,
    pub spoofed_blocks: u64,
    pub is_static: bool,
}

pub struct KasumiConfig {
    pub enabled: bool,
    pub enable_hidexattr: bool,
    pub mirror_path: String,
    pub enable_kernel_debug: bool,
    pub enable_stealth: bool,
    pub enable_mount_hide: bool,
    pub mount_hide: MountHideConfig,
    pub enable_maps_spoof: bool,
    pub enable_statfs_spoof: bool,
    pub statfs_spoof: StatfsSpoofConfig,
    pub uname: KasumiUnameConfig,
    pub cmdline_value: String,
    pub hide_uids: Vec<u32>,
    pub maps_rules: Vec<KasumiMapsRuleConfig>,
    pub kstat_rules: Vec<KasumiKstatRuleConfig>,
}

pub struct HymoFsConfig {
    pub enabled: bool,
    pub ignore_protocol_mismatch: bool,
    pub lkm_autoload: bool,
    pub lkm_kmi_override: String,
    pub lkm_dir: String,
    pub mirror_path: String,
}

pub struct Config {
    pub moduledir: String,
    pub mountsource: String,
    pub partitions: Vec<String>,
    pub disable_umount: bool,
    pub hymofs: HymoFsConfig,
    pub kasumi: KasumiConfig,
}

pub open spec fn uname_is_empty(u: KasumiUnameConfig) -> bool {
    &&& u.sysname@.len() == 0
    &&& u.nodename@.len() == 0
    &&& u.release@.len() == 0
    &&& u.version@.len() == 0
    &&& u.machine@.len() == 0
    &&& u.domainname@.len() == 0
}

impl Default for KasumiUnameConfig {
    fn default() -> (r: Self)
        ensures
            uname_is_empty(r),
    {
        KasumiUnameConfig {
            sysname: String::new(),
            nodename: String::new(),
            release: String::new(),
            version: String::new(),
            machine: String::new(),
            domainname: String::new(),
        }
    }
}

pub open spec fn kasumi_is_default(k: KasumiConfig) -> bool {
    &&& !k.enabled
    &&& !k.enable_hidexattr
    &&& k.mirror_path@.len() == 0
    &&& !k.enable_kernel_debug
    &&& !k.enable_stealth
    &&& !k.enable_mount_hide
    &&& !k.mount_hide.enabled
    &&& k.mount_hide.path_pattern@.len() == 0
    &&& !k.enable_maps_spoof
    &&& !k.enable_statfs_spoof
    &&& !k.statfs_spoof.enabled
    &&& k.statfs_spoof.path@.len() == 0
    &&& k.statfs_spoof.spoof_f_type == 0
    &&& uname_is_empty(k.uname)
    &&& k.cmdline_value@.len() == 0
    &&& k.hide_uids@.len() == 0
    &&& k.maps_rules@.len() == 0
    &&& k.kstat_rules@.len() == 0
}

impl Default for KasumiConfig {
    fn default() -> (r: Self)
        ensures
            kasumi_is_default(r),
    {
        KasumiConfig {
            enabled: false,
            enable_hidexattr: false,
            mirror_path: String::new(),
            enable_kernel_debug: false,
            enable_stealth: false,
            enable_mount_hide: false,
            mount_hide: MountHideConfig { enabled: false, path_pattern: String::new() },
            enable_maps_spoof: false,
            enable_statfs_spoof: false,
            statfs_spoof: StatfsSpoofConfig { enabled: false, path: String::new(), spoof_f_type: 0 },
            uname: KasumiUnameConfig::default(),
            cmdline_value: String::new(),
            hide_uids: Vec::new(),
            maps_rules: Vec::new(),
            kstat_rules: Vec::new(),
        }
    }
}

pub open spec fn hymofs_is_default(h: HymoFsConfig) -> bool {
    &&& !h.enabled
    &&& !h.ignore_protocol_mismatch
    &&& !h.lkm_autoload
    &&& h.lkm_kmi_override@.len() == 0
    &&& h.lkm_dir@.len() == 0
    &&& h.mirror_path@.len() == 0
}

impl Default for HymoFsConfig {
    fn default() -> (r: Self)
        ensures
            hymofs_is_default(r),
    {
        HymoFsConfig {
            enabled: false,
            ignore_protocol_mismatch: false,
            lkm_autoload: false,
            lkm_kmi_override: String::new(),
            lkm_dir: String::new(),
            mirror_path: String::new(),
        }
    }
}

pub open spec fn config_is_default(c: Config) -> bool {
    &&& c.moduledir@.len() == 0
    &&& c.mountsource@.len() == 0
    &&& c.partitions@.len() == 0
    &&& !c.disable_umount
    &&& hymofs_is_default(c.hymofs)
    &&& kasumi_is_default(c.kasumi)
}

impl Default for Config {
    fn default() -> (r: Self)
        ensures
            config_is_default(r),
    {
        Config {
            moduledir: String::new(),
            mountsource: String::new(),
            partitions: Vec::new(),
            disable_umount: false,
            hymofs: HymoFsConfig::default(),
            kasumi: KasumiConfig::default(),
        }
    }
}

/// `c` with its Kasumi section replaced.
pub open spec fn with_kasumi(c: Config, k: KasumiConfig) -> Config {
    Config { kasumi: k, ..c }
}

/// `c` with its HymoFS section replaced.
pub open spec fn with_hymofs(c: Config, h: HymoFsConfig) -> Config {
    Config { hymofs: h, ..c }
}

} // verus!
