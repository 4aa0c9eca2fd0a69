use fileql::commands::create::{plan_create, CreatePlan};
use fileql::commands::list::{is_hidden_name, list_entry};

#[test]
fn plan_create_folder_and_file() {
    assert_eq!(plan_create("folder", false, false), CreatePlan::MakeFolder);
    assert_eq!(plan_create("folder", true, false), CreatePlan::FolderExists);
    assert_eq!(plan_create("file", false, true), CreatePlan::MakeFile { write_content: true });
    assert_eq!(plan_create("file", false, false), CreatePlan::MakeFile { write_content: false });
    assert_eq!(plan_create("file", true, true), CreatePlan::FileExists);
}

#[test]
fn plan_create_rejects_other_kinds() {
    assert_eq!(plan_create("dir", false, false), CreatePlan::UnknownKind);
    assert_eq!(plan_create("", true, false), CreatePlan::UnknownKind);
    assert_eq!(plan_create("Folder", false, false), CreatePlan::UnknownKind);
}

#[test]
fn list_entry_notes_hidden_names_and_sizes() {
    let e = list_entry(".git", 4096, true);
    assert!(e.hidden);
    assert_eq!(e.size_note, "(4096 bytes)");
    let e = list_entry("main.rs", 0, true);
    assert!(!e.hidden);
    assert_eq!(e.size_note, "(0 bytes)");
    let e = list_entry("main.rs", 12, false);
    assert_eq!(e.size_note, "");
    assert!(!is_hidden_name(""));
    assert!(is_hidden_name("."));
}
