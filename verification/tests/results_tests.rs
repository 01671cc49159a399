use r5v_core::results::{
    delete_directory_result, list_directory_failed, list_directory_result, CreateModResult,
    DirectoryItem, ReadFileResult, WriteFileResult,
};

#[test]
fn delete_missing_directory_is_success() {
    // Deleting a directory that does not exist reports success, not an
    // error.
    let r = delete_directory_result(false, None);
    assert!(r.success);
    assert!(r.error.is_none());
}

#[test]
fn delete_existing_directory_outcomes() {
    let ok = delete_directory_result(true, None);
    assert!(ok.success);
    assert!(ok.error.is_none());

    let failed = delete_directory_result(true, Some("permission denied".to_owned()));
    assert!(!failed.success);
    assert_eq!(failed.error.as_deref(), Some("permission denied"));
}

#[test]
fn read_file_reports() {
    let ok = ReadFileResult::read_ok("text".to_owned());
    assert!(ok.success);
    assert_eq!(ok.content.as_deref(), Some("text"));
    assert!(ok.error.is_none());

    let failed = ReadFileResult::read_failed("no such file".to_owned());
    assert!(!failed.success);
    assert!(failed.content.is_none());
    assert_eq!(failed.error.as_deref(), Some("no such file"));
}

#[test]
fn write_file_reports() {
    let ok = WriteFileResult::write_ok();
    assert!(ok.success);
    assert!(ok.error.is_none());

    let failed = WriteFileResult::write_failed("disk full".to_owned());
    assert!(!failed.success);
    assert_eq!(failed.error.as_deref(), Some("disk full"));
}

#[test]
fn list_directory_reports() {
    let items = vec![
        DirectoryItem {
            name: "a".to_owned(),
            is_directory: true,
            path: "/w/a".to_owned(),
        },
        DirectoryItem {
            name: "b.txt".to_owned(),
            is_directory: false,
            path: "/w/b.txt".to_owned(),
        },
    ];
    let ok = list_directory_result(items);
    assert!(ok.success);
    let listed = ok.items.expect("items present");
    assert_eq!(listed.len(), 2);
    assert_eq!(listed[0].name, "a");
    assert!(listed[0].is_directory);
    assert_eq!(listed[1].path, "/w/b.txt");

    let failed = list_directory_failed("not a directory".to_owned());
    assert!(!failed.success);
    assert!(failed.items.is_none());
    assert_eq!(failed.error.as_deref(), Some("not a directory"));
}

#[test]
fn create_mod_reports() {
    let ok = CreateModResult::create_ok("/mods/my_mod".to_owned());
    assert!(ok.success);
    assert_eq!(ok.path.as_deref(), Some("/mods/my_mod"));
    assert!(ok.error.is_none());

    let failed = CreateModResult::create_failed("Mod directory already exists".to_owned());
    assert!(!failed.success);
    assert!(failed.path.is_none());
    assert_eq!(failed.error.as_deref(), Some("Mod directory already exists"));
}
