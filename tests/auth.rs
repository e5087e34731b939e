use procd::auth::{authorize, check_decoded, check_header, credentials_from_decoded, parse_basic, FailureLog, Verdict};
use procd::config::AuthConfig;

fn cfg() -> AuthConfig {
    AuthConfig { username: "admin".to_string(), password: "secret".to_string() }
}

const GOOD: &str = "Basic YWRtaW46c2VjcmV0";
const BAD: &str = "Basic YWRtaW46d3Jvbmc=";

#[test]
fn basic_header_decodes() {
    assert_eq!(parse_basic("Basic dXNlcjpwYXNz"), Some(("user".to_string(), "pass".to_string())));
    assert_eq!(parse_basic("Bearer dXNlcjpwYXNz"), None);
    assert_eq!(parse_basic("Basic !!!"), None);
    assert_eq!(parse_basic("Basic dXNlcnBhc3M="), None);
    assert!(check_header(&cfg(), GOOD));
    assert!(!check_header(&cfg(), BAD));
}

#[test]
fn decoded_credentials_split_at_first_colon() {
    assert_eq!(
        credentials_from_decoded(b"a:b:c".to_vec()),
        Some(("a".to_string(), "b:c".to_string()))
    );
    assert_eq!(credentials_from_decoded(vec![0xff, b':']), None);
    assert_eq!(credentials_from_decoded(b"nocolon".to_vec()), None);
    assert!(check_decoded(&cfg(), b"admin:secret".to_vec()));
    assert!(!check_decoded(&cfg(), b"admin:secre".to_vec()));
}

#[test]
fn no_user_name_lets_all_through() {
    let open = AuthConfig { username: String::new(), password: "x".to_string() };
    let mut log = FailureLog::new();
    assert_eq!(authorize(&open, &mut log, None, 0), Verdict::Pass);
    assert_eq!(log.len(), 0);
}

#[test]
fn ten_failures_forbid_then_window_expires() {
    let c = cfg();
    let mut log = FailureLog::new();
    for i in 0..10u64 {
        assert_eq!(authorize(&c, &mut log, Some(BAD), i * 1000), Verdict::Unauthorized);
    }
    assert_eq!(log.len(), 10);
    assert_eq!(authorize(&c, &mut log, Some(GOOD), 10_000), Verdict::Forbidden);
    assert_eq!(authorize(&c, &mut log, None, 20_000), Verdict::Forbidden);
    // The tenth failure was at 9 s; 120 s after it the window has let go of
    // enough of them.
    assert_eq!(authorize(&c, &mut log, Some(GOOD), 129_001), Verdict::Pass);
    assert_eq!(authorize(&c, &mut log, Some(BAD), 129_002), Verdict::Unauthorized);
}

#[test]
fn missing_header_counts_as_failure() {
    let c = cfg();
    let mut log = FailureLog::new();
    assert_eq!(authorize(&c, &mut log, None, 5), Verdict::Unauthorized);
    assert_eq!(log.len(), 1);
    assert_eq!(authorize(&c, &mut log, Some(GOOD), 6), Verdict::Pass);
    assert_eq!(log.len(), 1);
}

#[test]
fn prune_forgets_old_failures() {
    let c = cfg();
    let mut log = FailureLog::new();
    authorize(&c, &mut log, None, 0);
    authorize(&c, &mut log, None, 60_000);
    assert!(!log.prune(120_000));
    assert_eq!(log.len(), 2);
    assert!(!log.prune(120_001));
    assert_eq!(log.len(), 1);
    assert!(log.prune(180_001));
    assert_eq!(log.len(), 0);
}
