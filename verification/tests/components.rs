use setools::compat::{class_filetype, compress_category_names, consecutive_names, named_set_component,
    numeric_name, permission_component, statement_set_difference};
use setools::diff::{boolean_difference, set_changes, set_difference};
use setools::text::join_texts;

fn strings(values: &[&str]) -> Vec<String> {
    values.iter().map(|value| value.to_string()).collect()
}

#[test]
fn set_difference_lists_each_side_in_order() {
    let difference = set_difference(&strings(&["b", "a", "c"]), &strings(&["d", "c", "b", "b"]));
    assert_eq!(difference.added(), ["d"]);
    assert_eq!(difference.removed(), ["a"]);
    assert!(!difference.is_empty());
    assert!(set_difference(&strings(&["x", "y"]), &strings(&["y", "x"])).is_empty());
}

#[test]
fn booleans_report_changed_default_states() {
    let left = vec![("kept".to_owned(), true), ("modified".to_owned(), false), ("removed".to_owned(), true)];
    let right = vec![("added".to_owned(), true), ("kept".to_owned(), true), ("modified".to_owned(), true)];
    let difference = boolean_difference(&left, &right);
    assert_eq!(difference.added(), ["added"]);
    assert_eq!(difference.removed(), ["removed"]);
    assert_eq!(difference.modified().len(), 1);
    assert_eq!(difference.modified()[0].name(), "modified");
    assert!(difference.modified()[0].added_state());
    assert!(!difference.modified()[0].removed_state());
}

#[test]
fn set_changes_compare_matching_names() {
    let left = vec![("attr".to_owned(), strings(&["left_member", "shared"])), ("same".to_owned(), strings(&["x"]))];
    let right = vec![("same".to_owned(), strings(&["x"])), ("attr".to_owned(), strings(&["shared", "right_member"]))];
    let changes = set_changes(&left, &right);
    assert_eq!(changes.len(), 1);
    assert_eq!(changes[0].0, "attr");
    assert_eq!(changes[0].1, strings(&["right_member"]));
    assert_eq!(changes[0].2, strings(&["left_member"]));
}

#[test]
fn permission_components_summarize_changes() {
    let left = vec![
        ("file".to_owned(), strings(&["read", "write"])),
        ("gone".to_owned(), strings(&["x"])),
    ];
    let right = vec![
        ("file".to_owned(), strings(&["read", "append", "open"])),
        ("new".to_owned(), strings(&["y"])),
    ];
    let difference = permission_component(&left, &right);
    assert_eq!(difference.added(), ["new"]);
    assert_eq!(difference.removed(), ["gone"]);
    assert_eq!(difference.modified().len(), 1);
    let item = &difference.modified()[0];
    assert_eq!(item.summary(), "file (2 Added permissions, 1 Removed permissions)");
    assert_eq!(item.detail_lines(), ["          + append", "          + open", "          - write"]);
    assert!(!difference.is_empty());
}

#[test]
fn grouped_set_components_name_the_group() {
    let left = vec![("user_u".to_owned(), strings(&["a_r"]))];
    let right = vec![("user_u".to_owned(), strings(&["a_r", "b_r"]))];
    let difference = named_set_component(&left, &right, "roles", Some("Roles"));
    let item = &difference.modified()[0];
    assert_eq!(item.summary(), "user_u (1 Added roles)");
    assert_eq!(item.detail_lines(), ["          Roles:", "          + b_r"]);
    let same = named_set_component(&left, &left, "roles", None);
    assert!(same.is_empty());
}

#[test]
fn statement_sets_are_compared_as_sets() {
    let difference = statement_set_difference(&strings(&["allow a b:c d;", "common"]), &strings(&["common", "allow x y:z w;"]));
    assert_eq!(difference.added(), ["allow x y:z w;"]);
    assert_eq!(difference.removed(), ["allow a b:c d;"]);
    assert!(difference.modified().is_empty());
}

#[test]
fn category_runs_are_compressed() {
    assert_eq!(compress_category_names(&strings(&["c0", "c1", "c2", "c4", "c5", "other"])), "c0.c2,c4.c5,other");
    assert_eq!(compress_category_names(&strings(&["c1"])), "c1");
    assert_eq!(compress_category_names(&Vec::new()), "");
    assert_eq!(numeric_name("c10"), Some(("c".to_owned(), 10)));
    assert_eq!(numeric_name("cat"), None);
    assert_eq!(numeric_name("c99999999999999999999"), None);
    assert!(consecutive_names("s9", "s10"));
    assert!(!consecutive_names("s1", "t2"));
    assert!(!consecutive_names("s1", "s3"));
}

#[test]
fn genfscon_file_types_use_compatible_flags() {
    assert_eq!(class_filetype("dir"), "-d");
    assert_eq!(class_filetype("file"), "--");
    assert_eq!(class_filetype("sock_file"), "-s");
    assert_eq!(class_filetype("process"), "");
    assert_eq!(join_texts(&strings(&["a", "b", "c"]), ", "), "a, b, c");
}
