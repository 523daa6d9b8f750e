use setools::permmap::{PermissionDirection, PermissionMap};

#[test]
fn parses_permission_map_entries_and_built_in_data() {
    let map = PermissionMap::parse("1\nclass file 2\nread r 10\nwrite w 7\n", "test.map").unwrap();
    assert_eq!(map.class_count(), 1);
    assert_eq!(map.mappings().len(), 2);
    assert_eq!(
        map.mapping("file", "read").unwrap().direction(),
        PermissionDirection::Read
    );
    assert_eq!(map.mapping("file", "write").unwrap().weight(), 7);

    let replaced = PermissionMap::parse(
        "2\nclass file 1\nold r 1\nclass file 1\nnew w 2\n",
        "replace.map",
    )
    .unwrap();
    assert!(replaced.mapping("file", "old").is_none());
    assert_eq!(replaced.mapping("file", "new").unwrap().weight(), 2);
}

#[test]
fn reports_compatible_permission_map_errors() {
    let error = PermissionMap::parse("zero\n", "bad.map").unwrap_err();
    assert_eq!(
        error.to_string(),
        "bad.map:1:Invalid number of classes: zero"
    );
    let error = PermissionMap::parse("1\nclass file 1\nread sideways 3\n", "bad.map").unwrap_err();
    assert_eq!(
        error.to_string(),
        "bad.map:3:Invalid information flow direction: sideways"
    );
    let error = PermissionMap::parse("-1\n", "bad.map").unwrap_err();
    assert_eq!(
        error.to_string(),
        "bad.map:1:Number of classes must be positive: -1"
    );
    let error = PermissionMap::parse("1\nclass file 1\nread r -1\n", "bad.map").unwrap_err();
    assert_eq!(
        error.to_string(),
        "bad.map:3:Permission weight must be 1-10: -1"
    );
}

#[test]
fn map_records_source_and_declared_counts() {
    let map = PermissionMap::parse("1\nclass file 2\nread r 10\nwrite w 7\n", "test.map").unwrap();
    assert_eq!(map.source(), "test.map");
    assert_eq!(map.declared_class_count(), 1);
    let read = map.mapping("file", "read").unwrap();
    assert_eq!(read.class(), "file");
    assert_eq!(read.permission(), "read");
    assert_eq!(read.weight(), 10);
    assert!(map.mapping("file", "append").is_none());
    assert!(map.mapping("dir", "read").is_none());
}

#[test]
fn directions_have_compatible_codes() {
    assert_eq!(PermissionDirection::Read.code(), "r");
    assert_eq!(PermissionDirection::Write.code(), "w");
    assert_eq!(PermissionDirection::Both.code(), "b");
    assert_eq!(PermissionDirection::NoFlow.code(), "n");
    assert_eq!(PermissionDirection::Unmapped.code(), "u");
    assert_eq!(PermissionDirection::parse("b"), Some(PermissionDirection::Both));
    assert_eq!(PermissionDirection::parse("x"), None);
}
