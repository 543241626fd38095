use openmines_server::credentials::{
    auth_token_hash_md5, auth_token_hash_sha256, generate_hash, generate_session_id, hash_password,
    hex_lower, token_matches_legacy_auth, verify_password,
};

#[test]
fn hash_password_is_salted_sha256_with_prefix() {
    assert_eq!(
        hash_password("secret", "salt"),
        "sha256:e0daae7ddca6117bae5f642d182bf4c456a16fe195e74ccb38714372c533f828"
    );
}

#[test]
fn hex_lower_spells_every_byte_with_two_digits() {
    assert_eq!(hex_lower(&[0x00, 0x0f, 0xa0, 0xff]), "000fa0ff");
    assert_eq!(hex_lower(&[]), "");
}

#[test]
fn verify_password_rejects_a_wrong_legacy_password_and_a_broken_hash() {
    assert!(!verify_password("secret", "other", "salt"));
    assert!(!verify_password("secret", "sha256:00", "salt"));
    assert!(verify_password(
        "secret",
        "sha256:e0daae7ddca6117bae5f642d182bf4c456a16fe195e74ccb38714372c533f828",
        "salt"
    ));
}

#[test]
fn auth_tokens_hash_the_account_hash_and_session_id() {
    assert_eq!(auth_token_hash_md5("HASH", "sid01"), "4bc80cd9fe04bfd00de5478778e0efd4");
    assert_eq!(
        auth_token_hash_sha256("HASH", "sid01"),
        "957e4166caa3048150133f31567a512257d884a2949c57b43c16fd6ec549b2dd"
    );
}

#[test]
fn either_token_form_is_accepted() {
    assert!(token_matches_legacy_auth("4bc80cd9fe04bfd00de5478778e0efd4", "HASH", "sid01"));
    assert!(token_matches_legacy_auth(
        "957e4166caa3048150133f31567a512257d884a2949c57b43c16fd6ec549b2dd",
        "HASH",
        "sid01"
    ));
    assert!(!token_matches_legacy_auth("4bc80cd9fe04bfd00de5478778e0efd4", "HASH", "sid02"));
}

#[test]
fn generated_hashes_and_session_ids_use_their_alphabets() {
    for _ in 0..20 {
        let h = generate_hash();
        assert_eq!(h.chars().count(), 12);
        assert!(h.chars().all(|c| c.is_ascii_uppercase() || c.is_ascii_digit()));
        let s = generate_session_id();
        assert_eq!(s.chars().count(), 5);
        assert!(s.chars().all(|c| c.is_ascii_lowercase() || c.is_ascii_digit()));
    }
}
