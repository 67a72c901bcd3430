use delta_lima::packet::Packet;
use delta_lima::repo::Repository;
use delta_lima::session::{Session, SessionPhase};
use delta_lima::validate::{validate_username, validate_password};
use delta_lima::accepted_client_version;

fn authenticated_session() -> Session {
    let mut s = Session::new();
    s.begin_handshake();
    s.handle_ping(accepted_client_version(), false);
    assert_eq!(s.phase, SessionPhase::Authenticating);
    s
}

#[test]
fn handshake_accepts_the_exact_version() {
    let mut s = Session::new();
    assert_eq!(s.phase, SessionPhase::Connected);
    s.begin_handshake();
    assert_eq!(s.phase, SessionPhase::Handshaking);
    let reply = s.handle_ping("0.1.1".to_string(), false);
    match reply {
        Packet::PingResponse { valid, accepted_version } => {
            assert!(valid);
            assert_eq!(accepted_version, "0.1.1");
        },
        _ => panic!("expected a ping response"),
    }
    assert_eq!(s.phase, SessionPhase::Authenticating);
}

#[test]
fn handshake_gate_rejects_other_versions() {
    for bad in ["0.1.0", "0.1.1 ", "", "1.0.0", "v0.1.1"] {
        let mut s = Session::new();
        s.begin_handshake();
        let reply = s.handle_ping(bad.to_string(), false);
        match reply {
            Packet::PingResponse { valid, accepted_version } => {
                assert!(!valid);
                assert_eq!(accepted_version, "0.1.1");
            },
            _ => panic!("expected a ping response"),
        }
        // terminated without ever reaching authentication
        assert_eq!(s.phase, SessionPhase::Terminated);
    }
}

#[test]
fn handshake_disconnecting_ping_terminates() {
    let mut s = Session::new();
    s.begin_handshake();
    let reply = s.handle_ping("0.1.1".to_string(), true);
    assert!(matches!(reply, Packet::PingResponse { valid: true, .. }));
    assert_eq!(s.phase, SessionPhase::Terminated);
}

#[test]
fn signup_validation_is_independent_of_the_store() {
    // the two-character alphanumeric name is accepted by the pattern
    assert!(validate_username("ab".to_string()));
    // one character is too short; a space is not a username character
    assert!(!validate_username("a".to_string()));
    assert!(!validate_username("a b".to_string()));
    assert!(validate_username("user_name-17char0".to_string()));
    assert!(!validate_username("eighteen_chars_xx0".to_string()));
    assert!(validate_password("pw".to_string()));
    assert!(!validate_password("p".to_string()));
    assert!(!validate_password("p\nw".to_string()));
    assert!(validate_password("x".repeat(33)));
    assert!(!validate_password("x".repeat(34)));
}

#[test]
fn signup_with_bad_username_is_rejected_whatever_the_store_holds() {
    let mut repo = Repository::new();
    let mut s = authenticated_session();
    let reply = s.handle_login_request(&mut repo, "a".to_string(), "goodpw".to_string(), true);
    match reply {
        Packet::LoginResponse { valid, error } => {
            assert!(!valid);
            assert_eq!(error.as_deref(), Some("Invalid characters in username"));
        },
        _ => panic!("expected a login response"),
    }
    assert_eq!(s.phase, SessionPhase::Authenticating);
}

#[test]
fn signup_with_bad_password_is_rejected() {
    let mut repo = Repository::new();
    let mut s = authenticated_session();
    let reply = s.handle_login_request(&mut repo, "ab".to_string(), "p".to_string(), true);
    match reply {
        Packet::LoginResponse { valid, error } => {
            assert!(!valid);
            assert_eq!(error.as_deref(), Some("Invalid characters in password"));
        },
        _ => panic!("expected a login response"),
    }
    assert_eq!(s.phase, SessionPhase::Authenticating);
}

#[test]
fn signup_then_login_works() {
    let mut repo = Repository::new();
    let mut s = authenticated_session();
    let reply = s.handle_login_request(&mut repo, "alice".to_string(), "secret".to_string(), true);
    assert!(matches!(reply, Packet::LoginResponse { valid: true, error: None }));
    assert_eq!(s.phase, SessionPhase::Active);
    let signup_id = s.user_id.expect("an active session has a user");

    let mut s2 = authenticated_session();
    let reply = s2.handle_login_request(
        &mut repo,
        "alice".to_string(),
        "secret".to_string(),
        false,
    );
    assert!(matches!(reply, Packet::LoginResponse { valid: true, error: None }));
    assert_eq!(s2.phase, SessionPhase::Active);
    assert_eq!(s2.user_id, Some(signup_id));
}

#[test]
fn duplicate_signup_is_rejected_as_taken() {
    let mut repo = Repository::new();
    let mut s = authenticated_session();
    s.handle_login_request(&mut repo, "alice".to_string(), "secret".to_string(), true);

    let mut s2 = authenticated_session();
    let reply = s2.handle_login_request(&mut repo, "alice".to_string(), "other".to_string(), true);
    match reply {
        Packet::LoginResponse { valid, error } => {
            assert!(!valid);
            assert_eq!(error.as_deref(), Some("Username is taken"));
        },
        _ => panic!("expected a login response"),
    }
    assert_eq!(s2.phase, SessionPhase::Authenticating);
}

#[test]
fn repeated_bad_login_never_locks_out() {
    let mut repo = Repository::new();
    let mut setup = authenticated_session();
    setup.handle_login_request(&mut repo, "alice".to_string(), "secret".to_string(), true);

    let mut s = authenticated_session();
    let mut replies: Vec<(bool, Option<String>)> = Vec::new();
    for _ in 0..3 {
        let reply = s.handle_login_request(
            &mut repo,
            "alice".to_string(),
            "wrong".to_string(),
            false,
        );
        match reply {
            Packet::LoginResponse { valid, error } => replies.push((valid, error)),
            _ => panic!("expected a login response"),
        }
        assert_eq!(s.phase, SessionPhase::Authenticating);
    }
    // each attempt yields the identical response
    for (valid, error) in &replies {
        assert!(!valid);
        assert_eq!(error.as_deref(), Some("Invalid login credentials"));
    }
    // and the right password still succeeds afterwards
    let reply = s.handle_login_request(&mut repo, "alice".to_string(), "secret".to_string(), false);
    assert!(matches!(reply, Packet::LoginResponse { valid: true, error: None }));
    assert_eq!(s.phase, SessionPhase::Active);
}

#[test]
fn unknown_user_and_wrong_password_are_indistinguishable() {
    let mut repo = Repository::new();
    let mut setup = authenticated_session();
    setup.handle_login_request(&mut repo, "alice".to_string(), "secret".to_string(), true);

    let mut s = authenticated_session();
    let unknown = s.handle_login_request(&mut repo, "nobody".to_string(), "pw".to_string(), false);
    let wrong = s.handle_login_request(&mut repo, "alice".to_string(), "pw".to_string(), false);
    let (e1, e2) = match (unknown, wrong) {
        (
            Packet::LoginResponse { valid: false, error: e1 },
            Packet::LoginResponse { valid: false, error: e2 },
        ) => (e1, e2),
        _ => panic!("expected two failed login responses"),
    };
    assert_eq!(e1, e2);
    assert_eq!(e1.as_deref(), Some("Invalid login credentials"));
}

#[test]
fn transport_failure_terminates_any_phase() {
    let mut s = Session::new();
    s.transport_failed();
    assert_eq!(s.phase, SessionPhase::Terminated);

    let mut s = authenticated_session();
    s.transport_failed();
    assert_eq!(s.phase, SessionPhase::Terminated);
}
