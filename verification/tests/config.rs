use inventory_barcode::config::{database_file, AppConfig, AppState};

#[test]
fn the_default_configuration_names_the_database() {
    assert_eq!(AppConfig::default().db_path, "inventorymgmt.db");
    assert_eq!(AppConfig::new(None).db_path, "inventorymgmt.db");
    assert_eq!(AppConfig::new(Some(String::from("sqlite:other.db"))).db_path, "sqlite:other.db");
}

#[test]
fn the_database_file_is_the_second_part_of_the_location() {
    let file = |path: &str| database_file(&AppConfig::new(Some(String::from(path))));
    assert_eq!(file("sqlite:inventorymgmt.db"), "inventorymgmt.db");
    assert_eq!(file("a:b:c"), "b");
    assert_eq!(file("a::c"), "");
    assert_eq!(file("no colon"), "");
    assert_eq!(file(""), "");
    assert_eq!(file(":"), "");
    assert_eq!(file("x:"), "");
    assert_eq!(file(":y"), "y");
    assert_eq!(database_file(&AppConfig::default()), "");
}

#[test]
fn the_state_keeps_the_database_path() {
    let state = AppState::new(String::from("/data/inventorymgmt.db"));
    assert_eq!(state.db_path, "/data/inventorymgmt.db");
    assert_eq!(state.clone().db_path, state.db_path);
}
