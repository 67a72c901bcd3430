use delta_lima::validate::{validate_username, validate_password, validate_ip, validate_port};

#[test]
fn username_pattern_edges() {
    assert!(validate_username("ab".to_string()));
    assert!(validate_username("A1".to_string()));
    assert!(validate_username("a_b-c".to_string()));
    assert!(!validate_username("a".to_string()));
    assert!(!validate_username("".to_string()));
    assert!(!validate_username("a b".to_string()));
    assert!(!validate_username("na\u{ef}ve".to_string()));
    assert!(validate_username("x".repeat(17)));
    assert!(!validate_username("x".repeat(18)));
}

#[test]
fn password_pattern_edges() {
    assert!(validate_password("ab".to_string()));
    assert!(validate_password("p@ss w0rd!".to_string()));
    assert!(!validate_password("a".to_string()));
    assert!(!validate_password("ab\ncd".to_string()));
    assert!(validate_password("y".repeat(33)));
    assert!(!validate_password("y".repeat(34)));
}

#[test]
fn addresses_with_a_quad_prefix_are_accepted() {
    assert!(validate_ip("0.0.0.0".to_string()));
    assert!(validate_ip("255.255.255.255".to_string()));
    assert!(validate_ip("192.168.1.10".to_string()));
    // leading-zero octet forms are in the pattern
    assert!(validate_ip("007.1.2.3".to_string()));
    // the pattern anchors only the front: a quad prefix suffices
    assert!(validate_ip("1.2.3.4garbage".to_string()));
    assert!(validate_ip("1.2.3.456".to_string()));
}

#[test]
fn addresses_without_quad_or_localhost_are_rejected() {
    assert!(!validate_ip("".to_string()));
    assert!(!validate_ip("1.2.3".to_string()));
    assert!(!validate_ip("256.1.1.1".to_string()));
    assert!(!validate_ip("300.1.1.1".to_string()));
    assert!(!validate_ip("1234.1.1.1".to_string()));
    assert!(!validate_ip("1..2.3".to_string()));
    assert!(!validate_ip("a.b.c.d".to_string()));
    assert!(!validate_ip("1.2.3.".to_string()));
}

#[test]
fn localhost_is_accepted_as_a_suffix() {
    assert!(validate_ip("localhost".to_string()));
    // the pattern anchors only the back of this alternative
    assert!(validate_ip("xlocalhost".to_string()));
    assert!(!validate_ip("localhostx".to_string()));
}

#[test]
fn ports_in_range_are_accepted() {
    assert!(validate_port("0".to_string()));
    assert!(validate_port("2277".to_string()));
    assert!(validate_port("9999".to_string()));
    assert!(validate_port("54321".to_string()));
    assert!(validate_port("60000".to_string()));
    assert!(validate_port("65535".to_string()));
    // five characters all between zero and five are in the pattern
    assert!(validate_port("00000".to_string()));
    // so is the empty text
    assert!(validate_port("".to_string()));
}

#[test]
fn ports_out_of_range_are_rejected() {
    assert!(!validate_port("65536".to_string()));
    assert!(!validate_port("69999".to_string()));
    assert!(!validate_port("70000".to_string()));
    assert!(!validate_port("99999".to_string()));
    assert!(!validate_port("123456".to_string()));
    assert!(!validate_port("12a4".to_string()));
}
