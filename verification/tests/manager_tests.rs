use gnos::GnosError;
use gnos::capability::Capability;
use gnos::capability::Operation;
use gnos::config::SecurityConfig;
use gnos::manager::CapabilityManager;

fn manager() -> CapabilityManager {
    CapabilityManager::new(SecurityConfig::default())
}

#[test]
fn grant_then_decode_token_fields() {
    let mut m = manager();
    let token = m
        .grant_capability(
            String::from("/cloud/aws"),
            0b100,
            String::from("alice"),
            3600,
            1000,
        )
        .unwrap();
    let cap = Capability::from_token(&token).unwrap();
    assert_eq!(cap.path, "/cloud/aws");
    assert_eq!(cap.permissions, 0b100);
    assert_eq!(cap.owner, "alice");
    assert_eq!(cap.issued_at, 1000);
    assert_eq!(cap.expiration, 4600);
    assert!(cap.signature.is_some());
    // within the hour it is not expired, after it is
    assert!(!cap.is_expired(1000 + 3599));
    assert!(cap.is_expired(1000 + 3601));
}

#[test]
fn grant_clamps_duration_to_maximum() {
    let mut m = manager();
    // the default ceiling is a day
    let token = m
        .grant_capability(String::from("/x"), 0b100, String::from("o"), 1_000_000, 0)
        .unwrap();
    let cap = Capability::from_token(&token).unwrap();
    assert_eq!(cap.expiration, 86400);
}

#[test]
fn deny_without_any_capability() {
    let mut m = manager();
    let err = m
        .check_permission("/net/http", Operation::Read, None, 1000)
        .unwrap_err();
    match err {
        GnosError::PermissionDenied(msg) => assert_eq!(msg, "no valid capability found"),
        _ => panic!("wrong error variant"),
    }
    let log = m.get_audit_log();
    assert_eq!(log.len(), 1);
    assert!(!log[0].success);
    assert_eq!(log[0].owner, "unknown");
    assert_eq!(log[0].path, "/net/http");
    assert_eq!(log[0].reason.as_deref(), Some("no valid capability found"));
}

#[test]
fn active_set_authorizes_in_scope() {
    let mut m = manager();
    m.grant_capability(String::from("/cloud"), 0b100, String::from("alice"), 3600, 1000)
        .unwrap();
    assert!(m.check_permission("/cloud/aws", Operation::Read, None, 1500).is_ok());
    // a write is not covered by a read-only grant
    assert!(m.check_permission("/cloud/aws", Operation::Write, None, 1500).is_err());
    // outside the scope
    assert!(m.check_permission("/cloud2/x", Operation::Read, None, 1500).is_err());
    // after expiration
    assert!(m.check_permission("/cloud/aws", Operation::Read, None, 5000).is_err());
    let log = m.get_audit_log();
    assert_eq!(log.len(), 4);
    assert!(log[0].success);
    assert_eq!(log[0].owner, "alice");
    assert!(log[0].reason.is_none());
    assert!(!log[1].success && !log[2].success && !log[3].success);
}

#[test]
fn ambient_token_authorizes() {
    let mut issuer = manager();
    let token = issuer
        .grant_capability(String::from("/net"), 0b100, String::from("bob"), 3600, 1000)
        .unwrap();
    // a different manager with the same secret accepts the signed token
    let mut m = manager();
    assert!(m
        .check_permission("/net/http", Operation::Read, Some(&token), 1500)
        .is_ok());
    // the validation is cached
    assert_eq!(m.get_stats().cached_capabilities, 1);
    // the token does not cover a write
    assert!(m
        .check_permission("/net/http", Operation::Write, Some(&token), 1500)
        .is_err());
    // an expired token is rejected
    assert!(m
        .check_permission("/net/http", Operation::Read, Some(&token), 5000)
        .is_err());
}

#[test]
fn forged_token_is_rejected() {
    let mut issuer = CapabilityManager::new(SecurityConfig {
        hmac_secret: b"other-secret".to_vec(),
        ..SecurityConfig::default()
    });
    let token = issuer
        .grant_capability(String::from("/net"), 0b100, String::from("eve"), 3600, 1000)
        .unwrap();
    // a manager with the real secret refuses the foreign signature
    let mut m = manager();
    assert!(m
        .check_permission("/net/http", Operation::Read, Some(&token), 1500)
        .is_err());
}

#[test]
fn grants_are_independent_and_independently_revocable() {
    let mut m = manager();
    let t1 = m
        .grant_capability(String::from("/a"), 0b100, String::from("o1"), 3600, 1000)
        .unwrap();
    let t2 = m
        .grant_capability(String::from("/b"), 0b100, String::from("o2"), 3600, 1000)
        .unwrap();
    let t3 = m
        .grant_capability(String::from("/c"), 0b100, String::from("o3"), 3600, 1000)
        .unwrap();
    assert_ne!(t1, t2);
    assert_ne!(t2, t3);
    assert_eq!(m.get_stats().active_capabilities, 3);
    assert!(m.check_permission("/a", Operation::Read, None, 1500).is_ok());
    assert!(m.check_permission("/b", Operation::Read, None, 1500).is_ok());
    assert!(m.check_permission("/c", Operation::Read, None, 1500).is_ok());

    m.revoke_capability(&t2).unwrap();
    assert_eq!(m.get_stats().active_capabilities, 2);
    assert!(m.check_permission("/a", Operation::Read, None, 1500).is_ok());
    assert!(m.check_permission("/b", Operation::Read, None, 1500).is_err());
    assert!(m.check_permission("/c", Operation::Read, None, 1500).is_ok());
}

#[test]
fn revoking_unknown_token_is_not_an_error() {
    let mut issuer = manager();
    let token = issuer
        .grant_capability(String::from("/a"), 0b100, String::from("o"), 3600, 1000)
        .unwrap();
    // a manager that never saw the grant
    let mut m = manager();
    assert!(m.revoke_capability(&token).is_ok());
    // an undecodable token is the one rejected case
    assert!(m.revoke_capability("not-a-token").is_err());
}

#[test]
fn revocation_clears_the_cache() {
    let mut m = manager();
    let token = m
        .grant_capability(String::from("/a"), 0b100, String::from("o"), 3600, 1000)
        .unwrap();
    assert!(m.check_permission("/a", Operation::Read, Some(&token), 1100).is_ok());
    assert_eq!(m.get_stats().cached_capabilities, 1);
    m.revoke_capability(&token).unwrap();
    assert_eq!(m.get_stats().active_capabilities, 0);
    assert_eq!(m.get_stats().cached_capabilities, 0);
}

#[test]
fn cleanup_removes_expired_and_stale() {
    let mut m = manager();
    // expires at 1010
    m.grant_capability(String::from("/short"), 0b100, String::from("o"), 10, 1000)
        .unwrap();
    // expires at 4600
    let long_token = m
        .grant_capability(String::from("/long"), 0b100, String::from("o"), 3600, 1000)
        .unwrap();
    // cache the long-lived token at 1100
    assert!(m
        .check_permission("/long", Operation::Read, Some(&long_token), 1100)
        .is_ok());
    assert_eq!(m.get_stats().active_capabilities, 2);
    assert_eq!(m.get_stats().cached_capabilities, 1);

    // at 1200 only the short grant is expired; the cache entry is fresh
    m.cleanup_expired(1200);
    assert_eq!(m.get_stats().active_capabilities, 1);
    assert_eq!(m.get_stats().cached_capabilities, 1);

    // at 1500 the cache entry is older than its lifetime although the
    // capability itself is far from expiring
    m.cleanup_expired(1500);
    assert_eq!(m.get_stats().active_capabilities, 1);
    assert_eq!(m.get_stats().cached_capabilities, 0);
}

#[test]
fn validation_cache_window_upper_bound() {
    // A cached validation serves for up to sixty seconds; only a later
    // validation runs the full path again and restamps the entry. The
    // cleanup sweep makes the stamp observable: it drops entries older than
    // three hundred seconds.
    let mut issuer = manager();
    let token = issuer
        .grant_capability(String::from("/a"), 0b100, String::from("o"), 86400, 1000)
        .unwrap();

    // revalidation at 1059 is inside the window: the stamp stays at 1000,
    // so at 1310 the entry is over the lifetime and is swept
    let mut m = manager();
    assert!(m.check_permission("/a", Operation::Read, Some(&token), 1000).is_ok());
    assert!(m.check_permission("/a", Operation::Read, Some(&token), 1059).is_ok());
    m.cleanup_expired(1310);
    assert_eq!(m.get_stats().cached_capabilities, 0);

    // revalidation at 1061 is past the window: the entry is restamped, so
    // at 1310 it is younger than the lifetime and survives
    let mut m = manager();
    assert!(m.check_permission("/a", Operation::Read, Some(&token), 1000).is_ok());
    assert!(m.check_permission("/a", Operation::Read, Some(&token), 1061).is_ok());
    m.cleanup_expired(1310);
    assert_eq!(m.get_stats().cached_capabilities, 1);
}

#[test]
fn audit_log_is_bounded_and_evicted_in_order() {
    let mut m = manager();
    for i in 0..10001u64 {
        let _ = m.check_permission("/nowhere", Operation::Read, None, i);
    }
    let log = m.get_audit_log();
    // the insertion that crossed the bound evicted the oldest five thousand
    assert_eq!(log.len(), 5001);
    // the retained entries are the most recent ones, in original order
    assert_eq!(log[0].timestamp, 5000);
    assert_eq!(log[5000].timestamp, 10000);
    let stats = m.get_stats();
    assert_eq!(stats.total_audit_entries, 5001);
    assert_eq!(stats.failed_accesses, 5001);
    assert_eq!(stats.successful_accesses, 0);
}

#[test]
fn stats_count_successes_and_failures() {
    let mut m = manager();
    m.grant_capability(String::from("/a"), 0b100, String::from("o"), 3600, 1000)
        .unwrap();
    assert!(m.check_permission("/a", Operation::Read, None, 1001).is_ok());
    assert!(m.check_permission("/z", Operation::Read, None, 1002).is_err());
    assert!(m.check_permission("/a", Operation::List, None, 1003).is_ok());
    let stats = m.get_stats();
    assert_eq!(stats.total_audit_entries, 3);
    assert_eq!(stats.successful_accesses, 2);
    assert_eq!(stats.failed_accesses, 1);
    assert_eq!(stats.active_capabilities, 1);
}
