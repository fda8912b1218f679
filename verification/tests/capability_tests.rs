use base64::Engine;
use gnos::GnosError;
use gnos::capability::Capability;
use gnos::capability::Operation;
use gnos::capability::parse_permissions;
use gnos::text::hex_extend;

fn sample_cap() -> Capability {
    Capability::new(
        String::from("/cloud/aws"),
        0b100,
        String::from("alice"),
        3600,
        1000,
    )
}

#[test]
fn token_round_trip_unsigned() {
    let cap = sample_cap();
    let token = cap.to_token().unwrap();
    assert!(token.starts_with("gnos."));
    let back = Capability::from_token(&token).unwrap();
    assert_eq!(back, cap);
}

#[test]
fn token_round_trip_signed() {
    let mut cap = sample_cap();
    cap.sign(b"k1").unwrap();
    let token = cap.to_token().unwrap();
    let back = Capability::from_token(&token).unwrap();
    assert_eq!(back, cap);
    assert!(back.verify(b"k1"));
}

#[test]
fn token_bad_prefix() {
    let err = Capability::from_token("bogus.abc").unwrap_err();
    match err {
        GnosError::PermissionDenied(m) => assert_eq!(m, "invalid token format"),
        _ => panic!("wrong error variant"),
    }
}

#[test]
fn token_bad_encoding() {
    let err = Capability::from_token("gnos.!!!not-base64!!!").unwrap_err();
    match err {
        GnosError::PermissionDenied(m) => assert_eq!(m, "invalid token encoding"),
        _ => panic!("wrong error variant"),
    }
}

#[test]
fn token_bad_payload() {
    let body = base64::engine::general_purpose::URL_SAFE_NO_PAD.encode(b"garbage");
    let token = format!("gnos.{}", body);
    let err = Capability::from_token(&token).unwrap_err();
    match err {
        GnosError::PermissionDenied(m) => assert_eq!(m, "invalid token payload"),
        _ => panic!("wrong error variant"),
    }
}

#[test]
fn token_body_is_base64_of_payload() {
    // The wire format is checkable from outside: the body after the prefix
    // is the URL-safe unpadded base64 of the self-describing payload.
    let cap = Capability::new(String::from("ab"), 5, String::from("o"), 7, 3);
    let token = cap.to_token().unwrap();
    let body = &token[5..];
    let decoded = base64::engine::general_purpose::URL_SAFE_NO_PAD
        .decode(body.as_bytes())
        .unwrap();
    let payload = String::from_utf8(decoded).unwrap();
    // path length 2, path "ab", permissions 05, expiration 10, owner length
    // 1, owner "o", issued 3, no signature
    let expected = format!(
        "{}ab{}{}{}o{}0",
        "0000000000000002", "05", "000000000000000a", "0000000000000001", "0000000000000003"
    );
    assert_eq!(payload, expected);
}

#[test]
fn sign_then_verify_same_secret() {
    let mut cap = sample_cap();
    cap.sign(b"k1").unwrap();
    assert!(cap.verify(b"k1"));
}

#[test]
fn verify_other_secret_fails() {
    let mut cap = sample_cap();
    cap.sign(b"k1").unwrap();
    assert!(!cap.verify(b"k2"));
}

#[test]
fn verify_unsigned_fails() {
    let cap = sample_cap();
    assert!(!cap.verify(b"k1"));
}

#[test]
fn verify_malformed_signature_fails() {
    // fail closed: a stored signature that is not the canonical base64 form
    // of a tag never verifies
    let mut cap = sample_cap();
    cap.signature = Some(String::from("!!not-base64!!"));
    assert!(!cap.verify(b"k1"));
    cap.signature = Some(String::new());
    assert!(!cap.verify(b"k1"));
}

#[test]
fn mutation_invalidates_signature() {
    let mut cap = sample_cap();
    cap.sign(b"k1").unwrap();
    cap.permissions = 0b110;
    assert!(!cap.verify(b"k1"));

    let mut cap = sample_cap();
    cap.sign(b"k1").unwrap();
    cap.path = String::from("/cloud/gcp");
    assert!(!cap.verify(b"k1"));

    let mut cap = sample_cap();
    cap.sign(b"k1").unwrap();
    cap.expiration += 1;
    assert!(!cap.verify(b"k1"));

    let mut cap = sample_cap();
    cap.sign(b"k1").unwrap();
    cap.owner = String::from("mallory");
    assert!(!cap.verify(b"k1"));
}

#[test]
fn verify_after_round_trip() {
    let mut cap = sample_cap();
    cap.sign(b"k1").unwrap();
    let token = cap.to_token().unwrap();
    let back = Capability::from_token(&token).unwrap();
    assert!(!back.verify(b"k2"));
    assert!(back.verify(b"k1"));
}

#[test]
fn expiration_boundary() {
    let cap = sample_cap();
    // issued at 1000 for 3600 seconds
    assert!(!cap.is_expired(1000));
    assert!(!cap.is_expired(4599));
    assert!(!cap.is_expired(4600));
    assert!(cap.is_expired(4601));
}

#[test]
fn allows_gates_bits() {
    let read_only = Capability::new(String::from("/x"), 0b100, String::from("o"), 10, 0);
    assert!(read_only.allows(Operation::Read));
    assert!(read_only.allows(Operation::List));
    assert!(!read_only.allows(Operation::Write));
    assert!(!read_only.allows(Operation::Execute));

    let write_only = Capability::new(String::from("/x"), 0b010, String::from("o"), 10, 0);
    assert!(!write_only.allows(Operation::Read));
    assert!(!write_only.allows(Operation::List));
    assert!(write_only.allows(Operation::Write));
    assert!(!write_only.allows(Operation::Execute));

    let exec_only = Capability::new(String::from("/x"), 0b001, String::from("o"), 10, 0);
    assert!(!exec_only.allows(Operation::Read));
    assert!(exec_only.allows(Operation::Execute));
}

#[test]
fn list_behaves_as_read() {
    for mask in 0u8..8u8 {
        let cap = Capability::new(String::from("/x"), mask, String::from("o"), 10, 0);
        assert_eq!(cap.allows(Operation::List), cap.allows(Operation::Read));
    }
}

#[test]
fn scope_containment() {
    let cap = Capability::new(String::from("/cloud"), 0b100, String::from("o"), 10, 0);
    assert!(cap.is_valid_for_path("/cloud"));
    assert!(cap.is_valid_for_path("/cloud/aws"));
    assert!(cap.is_valid_for_path("/cloud/aws/bucket"));
    assert!(!cap.is_valid_for_path("/cloud2/anything"));
    assert!(!cap.is_valid_for_path("/clou"));
    assert!(!cap.is_valid_for_path("/net/http"));

    let slash = Capability::new(String::from("/"), 0b100, String::from("o"), 10, 0);
    assert!(slash.is_valid_for_path("/cloud"));
    assert!(slash.is_valid_for_path("/"));

    let trailing = Capability::new(String::from("/cloud/"), 0b100, String::from("o"), 10, 0);
    assert!(trailing.is_valid_for_path("/cloud/aws"));
}

#[test]
fn parse_permissions_masks() {
    assert_eq!(parse_permissions("r").unwrap(), 0b100);
    assert_eq!(parse_permissions("w").unwrap(), 0b010);
    assert_eq!(parse_permissions("x").unwrap(), 0b001);
    assert_eq!(parse_permissions("rwx").unwrap(), 0b111);
    assert_eq!(parse_permissions("rw").unwrap(), 0b110);
    assert_eq!(parse_permissions("").unwrap(), 0);
    match parse_permissions("rq").unwrap_err() {
        GnosError::InvalidPath(m) => assert_eq!(m, "invalid permission character: q"),
        _ => panic!("wrong error variant"),
    }
    match parse_permissions("Rw").unwrap_err() {
        GnosError::InvalidPath(m) => assert_eq!(m, "invalid permission character: R"),
        _ => panic!("wrong error variant"),
    }
}

#[test]
fn hex_rendering() {
    let mut s = String::new();
    hex_extend(&mut s, 1000, 16);
    assert_eq!(s, "00000000000003e8");
    let mut t = String::new();
    hex_extend(&mut t, 0xff, 2);
    assert_eq!(t, "ff");
}
