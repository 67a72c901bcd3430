use delta_lima::packet::Packet;
use delta_lima::relay::{inbound_step, outbound_step, confirm_delivery, PollEvent, OutboundStep};
use delta_lima::repo::{Repository, insert_user, get_id_from_username, get_next_msg};
use delta_lima::session::{Session, SessionPhase};
use delta_lima::accepted_client_version;

fn active_session_with_store() -> (Session, Repository, u64, u64) {
    let mut repo = Repository::new();
    insert_user(&mut repo, "alice".to_string(), "pw-a".to_string()).unwrap();
    insert_user(&mut repo, "bob".to_string(), "pw-b".to_string()).unwrap();
    let alice = get_id_from_username(&repo, "alice".to_string()).unwrap();
    let bob = get_id_from_username(&repo, "bob".to_string()).unwrap();
    let mut s = Session::new();
    s.begin_handshake();
    s.handle_ping(accepted_client_version(), false);
    let reply = s.handle_login_request(&mut repo, "alice".to_string(), "pw-a".to_string(), false);
    assert!(matches!(reply, Packet::LoginResponse { valid: true, .. }));
    assert_eq!(s.phase, SessionPhase::Active);
    assert_eq!(s.user_id, Some(alice));
    (s, repo, alice, bob)
}

fn message_to(recipient: &str, body: &str) -> PollEvent {
    PollEvent::Received(Packet::Message {
        message: body.to_string(),
        sender: String::new(),
        recipient: recipient.to_string(),
        timestamp: String::new(),
    })
}

#[test]
fn global_shutdown_stops_inbound_within_one_iteration() {
    let (mut s, mut repo, _, _) = active_session_with_store();
    let r = inbound_step(&mut s, &mut repo, true, PollEvent::Nothing, "now".to_string());
    assert!(r.stop);
    assert!(matches!(r.reply, Some(Packet::Disconnect)));
}

#[test]
fn local_shutdown_stops_outbound_within_one_iteration() {
    let (mut s, repo, _, _) = active_session_with_store();
    s.request_local_shutdown();
    let r = outbound_step(&s, &repo, false);
    assert!(matches!(r, OutboundStep::Exit(Packet::Disconnect)));
}

#[test]
fn global_shutdown_stops_outbound_within_one_iteration() {
    let (s, repo, _, _) = active_session_with_store();
    let r = outbound_step(&s, &repo, true);
    assert!(matches!(r, OutboundStep::Exit(Packet::Disconnect)));
}

#[test]
fn inbound_message_is_persisted_for_its_recipient() {
    let (mut s, mut repo, alice, _bob) = active_session_with_store();
    let r = inbound_step(&mut s, &mut repo, false, message_to("bob", "hi bob"), "t0".to_string());
    assert!(!r.stop);
    assert!(r.reply.is_none());
    // bob's queue now holds the message, stamped and attributed
    let bob = get_id_from_username(&repo, "bob".to_string()).unwrap();
    let q = get_next_msg(&repo, bob).unwrap().expect("the message is queued");
    assert_eq!(q.message, "hi bob");
    assert_eq!(q.sender, "alice");
    assert_eq!(q.timestamp, "t0");
    // nothing is queued for the sender
    assert!(matches!(get_next_msg(&repo, alice), Ok(None)));
}

#[test]
fn unknown_recipient_is_reported_and_the_session_continues() {
    let (mut s, mut repo, _, bob) = active_session_with_store();
    let r = inbound_step(&mut s, &mut repo, false, message_to("carol", "hi"), "t".to_string());
    assert!(!r.stop);
    match r.reply {
        Some(Packet::Error { should_disconnect, error }) => {
            assert!(!should_disconnect);
            assert_eq!(error, "Invalid recipient");
        },
        _ => panic!("expected an error reply"),
    }
    assert_eq!(s.phase, SessionPhase::Active);
    assert!(matches!(get_next_msg(&repo, bob), Ok(None)));
}

#[test]
fn client_disconnect_stops_the_inbound_worker() {
    let (mut s, mut repo, _, _) = active_session_with_store();
    let r = inbound_step(
        &mut s,
        &mut repo,
        false,
        PollEvent::Received(Packet::Disconnect),
        "t".to_string(),
    );
    assert!(r.stop);
    assert!(r.reply.is_none());
    assert!(s.local_terminate);
}

#[test]
fn fatal_client_error_stops_the_inbound_worker() {
    let (mut s, mut repo, _, _) = active_session_with_store();
    let r = inbound_step(
        &mut s,
        &mut repo,
        false,
        PollEvent::Received(Packet::Error { should_disconnect: true, error: "bye".to_string() }),
        "t".to_string(),
    );
    assert!(r.stop);
    assert!(s.local_terminate);

    // a non-fatal error is logged and the loop continues
    let (mut s2, mut repo2, _, _) = active_session_with_store();
    let r = inbound_step(
        &mut s2,
        &mut repo2,
        false,
        PollEvent::Received(Packet::Error { should_disconnect: false, error: "eh".to_string() }),
        "t".to_string(),
    );
    assert!(!r.stop);
    assert!(!s2.local_terminate);
}

#[test]
fn transport_failure_notifies_then_stops() {
    let (mut s, mut repo, _, _) = active_session_with_store();
    let r = inbound_step(&mut s, &mut repo, false, PollEvent::Failed, "t".to_string());
    assert!(r.stop);
    assert!(s.local_terminate);
    match r.reply {
        Some(Packet::Error { should_disconnect, error }) => {
            assert!(should_disconnect);
            assert_eq!(error, "Invalid data received.");
        },
        _ => panic!("expected an error reply"),
    }
}

#[test]
fn at_least_once_failed_send_keeps_the_message_queued() {
    let (mut alice_session, mut repo, _alice, bob) = active_session_with_store();
    inbound_step(
        &mut alice_session,
        &mut repo,
        false,
        message_to("bob", "must arrive"),
        "t".to_string(),
    );

    // bob's outbound worker picks the message up
    let mut bob_session = Session::new();
    bob_session.begin_handshake();
    bob_session.handle_ping(accepted_client_version(), false);
    let reply = bob_session.handle_login_request(
        &mut repo,
        "bob".to_string(),
        "pw-b".to_string(),
        false,
    );
    assert!(matches!(reply, Packet::LoginResponse { valid: true, .. }));

    let (packet, id) = match outbound_step(&bob_session, &repo, false) {
        OutboundStep::Deliver(p, id) => (p, id),
        _ => panic!("expected a delivery"),
    };
    match packet {
        Packet::Message { message, sender, recipient, timestamp } => {
            assert_eq!(message, "must arrive");
            assert_eq!(sender, "alice");
            assert_eq!(recipient, "SELF");
            assert_eq!(timestamp, "t");
        },
        _ => panic!("expected a message packet"),
    }

    // the send failed: the message must remain queued and be retried
    confirm_delivery(&mut repo, id, false);
    match outbound_step(&bob_session, &repo, false) {
        OutboundStep::Deliver(_, retry_id) => assert_eq!(retry_id, id),
        _ => panic!("the undelivered message must be offered again"),
    }

    // the send succeeded: only now does the entry leave the queue
    confirm_delivery(&mut repo, id, true);
    assert!(matches!(outbound_step(&bob_session, &repo, false), OutboundStep::Idle));
    assert!(matches!(get_next_msg(&repo, bob), Ok(None)));
}

#[test]
fn idle_outbound_worker_polls_again() {
    let (s, repo, _, _) = active_session_with_store();
    assert!(matches!(outbound_step(&s, &repo, false), OutboundStep::Idle));
}
