use openmines_server::auth_flow::required_button_payload;
use openmines_server::credentials::{hash_password, verify_password};

#[test]
fn button_payload_requires_expected_prefix() {
    assert_eq!(required_button_payload("passwd:secret", "passwd:"), Some("secret"));
    assert_eq!(required_button_payload("secret", "passwd:"), None);
    assert_eq!(required_button_payload("newnick:Bob", "passwd:"), None);
}

#[test]
fn password_verification_keeps_legacy_and_hash_paths_explicit() {
    let hashed = hash_password("secret", "user-hash");
    assert!(verify_password("secret", "secret", "user-hash"));
    assert!(verify_password("secret", &hashed, "user-hash"));
    assert!(!verify_password("wrong", &hashed, "user-hash"));
}
