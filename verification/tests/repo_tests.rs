use delta_lima::repo::{Repository, RepoError, insert_user, get_user_from_username,
    get_id_from_username, get_username_from_id, insert_msg, get_next_msg, delete_msg};

fn store_with_two_users() -> (Repository, u64, u64) {
    let mut repo = Repository::new();
    insert_user(&mut repo, "alice".to_string(), "pw-a".to_string()).unwrap();
    insert_user(&mut repo, "bob".to_string(), "pw-b".to_string()).unwrap();
    let alice = get_id_from_username(&repo, "alice".to_string()).unwrap();
    let bob = get_id_from_username(&repo, "bob".to_string()).unwrap();
    (repo, alice, bob)
}

#[test]
fn users_round_trip() {
    let (repo, alice, bob) = store_with_two_users();
    assert_ne!(alice, bob);
    let (id, pass) = get_user_from_username(&repo, "alice".to_string()).unwrap();
    assert_eq!(id, alice);
    assert_eq!(pass, "pw-a");
    assert_eq!(get_username_from_id(&repo, bob).unwrap(), "bob");
}

#[test]
fn missing_records_are_not_found() {
    let (repo, alice, _) = store_with_two_users();
    assert!(matches!(
        get_user_from_username(&repo, "carol".to_string()),
        Err(RepoError::NotFound)
    ));
    assert!(matches!(
        get_id_from_username(&repo, "carol".to_string()),
        Err(RepoError::NotFound)
    ));
    assert!(matches!(get_username_from_id(&repo, alice + 1000), Err(RepoError::NotFound)));
}

#[test]
fn taken_username_conflicts_and_changes_nothing() {
    let (mut repo, alice, _) = store_with_two_users();
    let r = insert_user(&mut repo, "alice".to_string(), "other".to_string());
    assert!(matches!(r, Err(RepoError::Conflict)));
    // the stored record is untouched
    let (id, pass) = get_user_from_username(&repo, "alice".to_string()).unwrap();
    assert_eq!(id, alice);
    assert_eq!(pass, "pw-a");
}

#[test]
fn empty_queue_yields_nothing() {
    let (repo, alice, _) = store_with_two_users();
    assert!(matches!(get_next_msg(&repo, alice), Ok(None)));
}

#[test]
fn queue_is_drained_oldest_first() {
    let (mut repo, alice, bob) = store_with_two_users();
    insert_msg(&mut repo, alice, bob, "first".to_string(), "t1".to_string()).unwrap();
    insert_msg(&mut repo, alice, bob, "second".to_string(), "t2".to_string()).unwrap();
    insert_msg(&mut repo, bob, alice, "other way".to_string(), "t3".to_string()).unwrap();

    let q1 = get_next_msg(&repo, bob).unwrap().expect("a message is queued for bob");
    assert_eq!(q1.message, "first");
    assert_eq!(q1.sender, "alice");
    assert_eq!(q1.timestamp, "t1");
    delete_msg(&mut repo, q1.id).unwrap();

    let q2 = get_next_msg(&repo, bob).unwrap().expect("one more message for bob");
    assert_eq!(q2.message, "second");
    assert_ne!(q2.id, q1.id);
    delete_msg(&mut repo, q2.id).unwrap();

    assert!(matches!(get_next_msg(&repo, bob), Ok(None)));
    // alice's message was never touched
    let qa = get_next_msg(&repo, alice).unwrap().expect("a message for alice");
    assert_eq!(qa.message, "other way");
    assert_eq!(qa.sender, "bob");
}

#[test]
fn deleted_id_is_never_polled_again() {
    let (mut repo, alice, bob) = store_with_two_users();
    insert_msg(&mut repo, alice, bob, "once".to_string(), "t".to_string()).unwrap();
    let q = get_next_msg(&repo, bob).unwrap().unwrap();
    let delivered = q.id;
    delete_msg(&mut repo, delivered).unwrap();

    // later traffic never resurrects the identifier
    for k in 0..5 {
        insert_msg(&mut repo, alice, bob, format!("again {}", k), "t".to_string()).unwrap();
        let next = get_next_msg(&repo, bob).unwrap().unwrap();
        assert_ne!(next.id, delivered);
        delete_msg(&mut repo, next.id).unwrap();
    }
    assert!(matches!(get_next_msg(&repo, bob), Ok(None)));
}

#[test]
fn deleting_an_absent_id_is_harmless() {
    let (mut repo, alice, bob) = store_with_two_users();
    insert_msg(&mut repo, alice, bob, "kept".to_string(), "t".to_string()).unwrap();
    assert!(delete_msg(&mut repo, 987654).is_ok());
    let q = get_next_msg(&repo, bob).unwrap().expect("the message is still queued");
    assert_eq!(q.message, "kept");
}

#[test]
fn unresolvable_sender_is_an_error() {
    let (mut repo, _, bob) = store_with_two_users();
    // a queued message whose sender id matches no user record
    insert_msg(&mut repo, 424242, bob, "ghost".to_string(), "t".to_string()).unwrap();
    assert!(matches!(get_next_msg(&repo, bob), Err(RepoError::NotFound)));
}
