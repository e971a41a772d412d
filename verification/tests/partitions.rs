use hybrid_mount::partitions::{
    discover_partition_names, managed_partition_names, managed_partition_set,
    select_partition_names,
};

fn strings(v: &[&str]) -> Vec<String> {
    v.iter().map(|s| s.to_string()).collect()
}

#[test]
fn only_keep_existing_root_partitions() {
    let partitions = discover_partition_names("/unused", &[]).0;

    for name in &partitions {
        assert!(std::path::Path::new("/").join(name).symlink_metadata().is_ok());
    }
}

#[test]
fn extra_partitions_require_existing_root() {
    let extras = vec![
        "tmp".to_string(),
        "__definitely_not_a_real_partition__".to_string(),
    ];

    let partitions = discover_partition_names("/unused", &extras).0;

    assert!(partitions.contains(&"tmp".to_string()));
    assert!(!partitions.contains(&"__definitely_not_a_real_partition__".to_string()));
}

#[test]
fn selection_is_sorted_and_unique() {
    let cands = strings(&["vendor", "system", "tmp", "system", "odm", "apex"]);
    let present = vec![true, true, true, true, false, true];
    assert_eq!(
        select_partition_names(&cands, &present),
        strings(&["apex", "system", "tmp", "vendor"])
    );
}

#[test]
fn selection_of_nothing_is_empty() {
    let cands = strings(&["system", "vendor"]);
    assert!(select_partition_names(&cands, &[false, false].to_vec()).is_empty());
}

#[test]
fn managed_names_and_set_agree() {
    let extras = strings(&["tmp", "tmp"]);
    let names = managed_partition_names("/unused", &extras).0;
    let set = managed_partition_set("/unused", &extras).0;
    assert_eq!(names, set);
    assert_eq!(names.iter().filter(|n| n.as_str() == "tmp").count(), 1);
    let mut sorted = names.clone();
    sorted.sort();
    assert_eq!(sorted, names);
}
