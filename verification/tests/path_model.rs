use std::path::{Component, Path, PathBuf};

use hybrid_mount::normalize::normalize_path;
use hybrid_mount::path_exec::{
    file_name_exec, parent_exec, path_eq_exec, push_exec, strip_prefix_exec,
};

const SAMPLES: &[&str] = &[
    "", "/", "//", "///", ".", "./", "..", "../", "a", "a/", "a//", "/a", "/a/", "//a", "a/b",
    "a/./b", "a/../b", "./a", ".//a", "../a", "/./a", "/../a", "a/.", "a/..", "/a/b/c", "a/b/c/",
    "/a/./b/../c/", "./", "./.", "././a", ".a", "..a", "a.", "/.a/b", "x/y/./", "/system/bin",
    "/system//bin/./sh", "system/../../etc", "/..", "/.", "a/b/./.", "/a/b/../../..", "..//..",
];

fn chars(s: &str) -> Vec<char> {
    s.chars().collect()
}

fn string(v: &[char]) -> String {
    v.iter().collect()
}

fn std_normalize(path: &Path) -> PathBuf {
    let mut normalized = PathBuf::new();
    let mut saw_root = false;
    for component in path.components() {
        match component {
            Component::RootDir => {
                normalized.push(Path::new("/"));
                saw_root = true;
            }
            Component::CurDir => {}
            Component::ParentDir => {
                let _ = normalized.pop();
                if saw_root && normalized.as_os_str().is_empty() {
                    normalized.push(Path::new("/"));
                }
            }
            Component::Normal(value) => normalized.push(value),
            Component::Prefix(prefix) => normalized.push(prefix.as_os_str()),
        }
    }
    if saw_root && normalized.as_os_str().is_empty() {
        PathBuf::from("/")
    } else {
        normalized
    }
}

#[test]
fn parent_matches_std() {
    for s in SAMPLES {
        let ours = parent_exec(&chars(s)).map(|v| string(&v));
        let theirs = Path::new(s).parent().map(|p| p.to_str().unwrap().to_string());
        assert_eq!(ours, theirs, "parent of {:?}", s);
    }
}

#[test]
fn file_name_matches_std() {
    for s in SAMPLES {
        let ours = file_name_exec(&chars(s)).map(|v| string(&v));
        let theirs = Path::new(s).file_name().map(|p| p.to_str().unwrap().to_string());
        assert_eq!(ours, theirs, "file_name of {:?}", s);
    }
}

#[test]
fn eq_push_strip_match_std() {
    for a in SAMPLES {
        for b in SAMPLES {
            assert_eq!(
                path_eq_exec(&chars(a), &chars(b)),
                Path::new(a) == Path::new(b),
                "eq {:?} {:?}",
                a,
                b
            );
            let pushed = string(&push_exec(&chars(a), &chars(b)));
            assert_eq!(pushed, Path::new(a).join(b).to_str().unwrap(), "join {:?} {:?}", a, b);
            let ours = strip_prefix_exec(&chars(a), &chars(b)).map(|v| string(&v));
            let theirs = Path::new(a)
                .strip_prefix(b)
                .ok()
                .map(|p| p.to_str().unwrap().to_string());
            assert_eq!(ours, theirs, "strip_prefix {:?} {:?}", a, b);
        }
    }
}

#[test]
fn normalize_matches_std() {
    for s in SAMPLES {
        let ours = normalize_path(s);
        let theirs = std_normalize(Path::new(s));
        assert_eq!(ours, theirs.to_str().unwrap(), "normalize {:?}", s);
    }
}
