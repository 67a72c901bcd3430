use delta_lima::packet::Packet;
use delta_lima::relay::{inbound_classify, persist_reply, InboundClass, PollEvent};
use delta_lima::repo::RepoError;
use delta_lima::session::{login_decision, signup_insert_reply, signup_validation_reply};

#[test]
fn signup_validation_reply_mirrors_the_patterns() {
    assert!(signup_validation_reply(&"ab".to_string(), &"pw".to_string()).is_none());
    match signup_validation_reply(&"a".to_string(), &"pw".to_string()) {
        Some(Packet::LoginResponse { valid: false, error }) => {
            assert_eq!(error.as_deref(), Some("Invalid characters in username"));
        },
        _ => panic!("expected a rejection"),
    }
    match signup_validation_reply(&"ab".to_string(), &"p".to_string()) {
        Some(Packet::LoginResponse { valid: false, error }) => {
            assert_eq!(error.as_deref(), Some("Invalid characters in password"));
        },
        _ => panic!("expected a rejection"),
    }
}

#[test]
fn signup_insert_reply_maps_store_outcomes() {
    let (reply, activated) = signup_insert_reply(true);
    assert!(matches!(reply, Packet::LoginResponse { valid: true, error: None }));
    assert!(activated);
    let (reply, activated) = signup_insert_reply(false);
    match reply {
        Packet::LoginResponse { valid: false, error } => {
            assert_eq!(error.as_deref(), Some("Username is taken"));
        },
        _ => panic!("expected a rejection"),
    }
    assert!(!activated);
}

#[test]
fn login_decision_gives_one_fixed_refusal() {
    let (missing, uid) = login_decision(Err(RepoError::NotFound), &"pw".to_string());
    assert!(uid.is_none());
    let (wrong, uid) = login_decision(Ok((7, "stored".to_string())), &"pw".to_string());
    assert!(uid.is_none());
    let (e1, e2) = match (missing, wrong) {
        (
            Packet::LoginResponse { valid: false, error: e1 },
            Packet::LoginResponse { valid: false, error: e2 },
        ) => (e1, e2),
        _ => panic!("expected two refusals"),
    };
    assert_eq!(e1, e2);
    assert_eq!(e1.as_deref(), Some("Invalid login credentials"));

    let (accepted, uid) = login_decision(Ok((7, "pw".to_string())), &"pw".to_string());
    assert!(matches!(accepted, Packet::LoginResponse { valid: true, error: None }));
    assert_eq!(uid, Some(7));
}

#[test]
fn inbound_classify_stops_on_either_flag() {
    for (g, l) in [(true, false), (false, true), (true, true)] {
        match inbound_classify(g, l, PollEvent::Nothing) {
            InboundClass::Stop { reply, set_local } => {
                assert!(matches!(reply, Some(Packet::Disconnect)));
                assert!(!set_local);
            },
            _ => panic!("a raised flag must stop the worker"),
        }
    }
    assert!(matches!(inbound_classify(false, false, PollEvent::Nothing), InboundClass::Pass));
}

#[test]
fn inbound_classify_routes_relay_packets() {
    let event = PollEvent::Received(Packet::Message {
        message: "hello".to_string(),
        sender: String::new(),
        recipient: "bob".to_string(),
        timestamp: String::new(),
    });
    match inbound_classify(false, false, event) {
        InboundClass::Persist { message, recipient } => {
            assert_eq!(message, "hello");
            assert_eq!(recipient, "bob");
        },
        _ => panic!("a message asks to be persisted"),
    }
    match inbound_classify(false, false, PollEvent::Received(Packet::Disconnect)) {
        InboundClass::Stop { reply, set_local } => {
            assert!(reply.is_none());
            assert!(set_local);
        },
        _ => panic!("a disconnect stops the worker"),
    }
    match inbound_classify(false, false, PollEvent::Failed) {
        InboundClass::Stop { reply, set_local } => {
            assert!(set_local);
            match reply {
                Some(Packet::Error { should_disconnect, error }) => {
                    assert!(should_disconnect);
                    assert_eq!(error, "Invalid data received.");
                },
                _ => panic!("a failure is reported before stopping"),
            }
        },
        _ => panic!("a transport failure stops the worker"),
    }
}

#[test]
fn persist_reply_reports_each_failure_without_disconnecting() {
    assert!(persist_reply(true, true).is_none());
    match persist_reply(false, false) {
        Some(Packet::Error { should_disconnect, error }) => {
            assert!(!should_disconnect);
            assert_eq!(error, "Invalid recipient");
        },
        _ => panic!("expected a reply"),
    }
    match persist_reply(true, false) {
        Some(Packet::Error { should_disconnect, error }) => {
            assert!(!should_disconnect);
            assert_eq!(error, "Database error");
        },
        _ => panic!("expected a reply"),
    }
}
