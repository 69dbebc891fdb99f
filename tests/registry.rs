use cerberus::registry::{
    build_cache_key, classify_status, create_counter_name, is_hex_string, is_valid_project_id,
    StatusClass,
};

#[test]
fn project_id_validity() {
    assert!(is_valid_project_id("0123456789abcdefABCDEF0123456789"));
    assert!(is_valid_project_id(&"a".repeat(32)));
    assert!(!is_valid_project_id(&"a".repeat(31)));
    assert!(!is_valid_project_id(&"a".repeat(33)));
    assert!(!is_valid_project_id(&format!("{}g", "a".repeat(31))));
    assert!(!is_valid_project_id(""));
    // 32 bytes, 16 characters, none of them hexadecimal.
    assert!(!is_valid_project_id(&"é".repeat(16)));
}

#[test]
fn hex_strings() {
    assert!(is_hex_string(""));
    assert!(is_hex_string("09afAF"));
    assert!(!is_hex_string("0x"));
    assert!(!is_hex_string(" a"));
}

#[test]
fn cache_key() {
    assert_eq!(build_cache_key("abc"), "project-data/abc");
    assert_eq!(build_cache_key(""), "project-data/");
}

#[test]
fn counter_name() {
    assert_eq!(create_counter_name("requests_total"), "project_data_requests_total");
}

#[test]
fn status_classes() {
    assert_eq!(classify_status(200), StatusClass::Success);
    assert_eq!(classify_status(204), StatusClass::Success);
    assert_eq!(classify_status(299), StatusClass::Success);
    assert_eq!(classify_status(199), StatusClass::Unexpected);
    assert_eq!(classify_status(300), StatusClass::Unexpected);
    assert_eq!(classify_status(401), StatusClass::InvalidToken);
    assert_eq!(classify_status(403), StatusClass::Unexpected);
    assert_eq!(classify_status(404), StatusClass::NotFound);
    assert_eq!(classify_status(500), StatusClass::Unexpected);
}
