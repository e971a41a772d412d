use hybrid_mount::normalize::normalize_path;
use hybrid_mount::resolve::{resolve_path_with_answers, resolve_path_with_root};
use std::path::{Path, PathBuf};

fn answers(v: &[bool]) -> Vec<bool> {
    v.to_vec()
}

/// The resolution written directly against `std::path`, probing the real disk.
fn std_resolve(system_root: &Path, path: &Path) -> PathBuf {
    let virtual_path =
        if path.is_absolute() { path.to_path_buf() } else { Path::new("/").join(path) };
    let translated = if system_root == Path::new("/") {
        virtual_path.clone()
    } else {
        let relative = virtual_path.strip_prefix("/").unwrap_or(&virtual_path);
        system_root.join(relative)
    };
    let Some(parent) = translated.parent() else { return virtual_path };
    let Some(filename) = translated.file_name() else { return virtual_path };
    let mut current = parent.to_path_buf();
    let mut suffix = Vec::new();
    while current != system_root && !current.exists() {
        if let Some(name) = current.file_name() {
            suffix.push(name.to_os_string());
        }
        if !current.pop() {
            break;
        }
    }
    let mut resolved = if current.exists() { current } else { parent.to_path_buf() };
    for item in suffix.iter().rev() {
        resolved.push(item);
    }
    resolved.push(filename);
    if system_root == Path::new("/") {
        return resolved;
    }
    if let Ok(relative) = resolved.strip_prefix(system_root) {
        return Path::new("/").join(relative);
    }
    virtual_path
}

#[test]
fn resolution_matches_std_on_this_machine() {
    let roots = ["/", "/usr", "/no_such_root_dir", "usr"];
    let paths = [
        "/usr/bin/env",
        "/usr/no_such_dir/deeper/file",
        "bin/sh",
        "/",
        "",
        "/etc/../etc/passwd",
        "/no/such/path",
        "lib//x/",
    ];
    for root in roots {
        for path in paths {
            let expected = std_resolve(Path::new(root), Path::new(path));
            assert_eq!(
                resolve_path_with_root(root, path).0,
                expected.to_str().unwrap(),
                "root {:?} path {:?}",
                root,
                path
            );
        }
    }
}

#[test]
fn resolution_replays_given_answers() {
    assert_eq!(resolve_path_with_answers("/", "/a/b/c", &answers(&[true])), "/a/b/c");
    assert_eq!(resolve_path_with_answers("/", "/a/b/c", &answers(&[false, false, true])), "/a/b/c");
    assert_eq!(resolve_path_with_answers("/", "/a/b/c", &answers(&[])), "/a/b/a/b/c");
    assert_eq!(resolve_path_with_answers("/sysroot", "a/b", &answers(&[false, true])), "/a/b");
    assert_eq!(resolve_path_with_answers("/", "/", &answers(&[])), "/");
}

#[test]
fn normalize_examples() {
    assert_eq!(normalize_path("/a/./b/../c/"), "/a/c");
    assert_eq!(normalize_path("/.."), "/");
    assert_eq!(normalize_path("a/../.."), "");
    assert_eq!(normalize_path("//x//y"), "/x/y");
    assert_eq!(normalize_path(&normalize_path("/p/../q/./r")), normalize_path("/p/../q/./r"));
}

#[test]
fn link_paths_follow_the_real_link() {
    for p in ["/bin", "/lib", "/proc/self/root", "/proc/self/cwd", "/no/such/link", "/usr/bin/"] {
        let path = Path::new(p);
        let expected = match path.read_link() {
            Ok(target) if target.is_absolute() => normalize_path(target.to_str().unwrap()),
            Ok(target) => normalize_path(
                path.parent().unwrap_or(Path::new("/")).join(target).to_str().unwrap(),
            ),
            Err(_) => normalize_path(p),
        };
        assert_eq!(hybrid_mount::sysutil::resolve_link_path(p).0, expected, "input {:?}", p);
    }
}

#[test]
fn under_slash_missing_names_are_kept_in_order() {
    assert_eq!(resolve_path_with_root("/", "/no_such_dir_x/y/z").0, "/no_such_dir_x/y/z");
    assert_eq!(resolve_path_with_root("/", "usr/no_such_name/q").0, "/usr/no_such_name/q");
    assert_eq!(resolve_path_with_root("/", "/").0, "/");
    assert_eq!(resolve_path_with_root("//", "/a/./b").0, "/a/b");
}

#[test]
fn under_an_existing_root_missing_names_are_kept() {
    assert_eq!(resolve_path_with_root("/usr", "/no_such_dir_y/x").0, "/no_such_dir_y/x");
    assert_eq!(resolve_path_with_root("/usr", "no_such_dir_y/a/b").0, "/no_such_dir_y/a/b");
    assert_eq!(resolve_path_with_root("/usr", "/").0, "/");
}

#[test]
fn resolution_records_its_questions() {
    let (r, probes) = resolve_path_with_root("/", "/no_such_dir_x/y/z");
    assert_eq!(r, "/no_such_dir_x/y/z");
    let asked: Vec<(&str, bool)> = probes.iter().map(|p| (p.path(), p.found())).collect();
    assert_eq!(asked, vec![("/no_such_dir_x/y", false), ("/no_such_dir_x", false), ("/", true)]);
    let (_, probe) = hybrid_mount::hymofs_rules::mirror_module_root("/no_such_mirror", "m");
    assert_eq!((probe.path(), probe.found()), ("/no_such_mirror/m", false));
    let (names, probes) = hybrid_mount::partitions::discover_partition_names("/unused", &["tmp".to_string()]);
    let asked: Vec<&str> = probes.iter().map(|p| p.path()).collect();
    assert_eq!(asked, vec!["/system", "/vendor", "/product", "/system_ext", "/odm", "/oem", "/tmp"]);
    for p in &probes {
        let name = &p.path()[1..];
        assert_eq!(names.contains(&name.to_string()), p.found());
    }
}

#[test]
fn under_roots_with_dotdot() {
    assert_eq!(resolve_path_with_root("/usr/../usr", "/no_such_dir_z/q").0, "/no_such_dir_z/q");
    assert_eq!(resolve_path_with_root("/usr/./lib/..", "no_such_dir_z").0, "/no_such_dir_z");
    assert_eq!(resolve_path_with_root("/usr/../usr", "/").0, "/");
}
