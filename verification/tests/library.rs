use gopal::{DEFAULT_CONFIG_DIR, DEFAULT_DB_PATH, VERSION};

#[test]
fn test_version_exists() {
    assert!(!VERSION.is_empty());
}

#[test]
fn test_constants() {
    assert!(DEFAULT_DB_PATH.contains("musicd"));
    assert!(DEFAULT_CONFIG_DIR.contains("musicd"));
}
