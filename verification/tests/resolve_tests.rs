use cltodo::resolve::{resolve_store_root, store_file_name, store_folder_name, StoreRoot};

#[test]
fn the_global_flag_always_picks_the_home_store() {
    assert_eq!(resolve_store_root(true, true), StoreRoot::Global);
    assert_eq!(resolve_store_root(true, false), StoreRoot::Global);
}

#[test]
fn a_detected_project_root_picks_the_project_store() {
    assert_eq!(resolve_store_root(false, true), StoreRoot::Project);
}

#[test]
fn no_project_root_falls_back_to_the_home_store() {
    assert_eq!(resolve_store_root(false, false), StoreRoot::Global);
}

#[test]
fn store_names() {
    assert_eq!(store_folder_name(), ".cltodo");
    assert_eq!(store_file_name(), "data.db");
}
