use delta_lima::config::{Server, DBCfg, Config, get_db_address, get_listen_address};
use delta_lima::clock::{systime, to_epoch};

#[test]
fn db_defaults_fill_a_missing_section() {
    let info = get_db_address(Config { server: None, database: None });
    assert_eq!(info.ip, "localhost");
    assert_eq!(info.port, "5432");
    assert_eq!(info.uname, "postgres");
    assert_eq!(info.pass, "admin");
}

#[test]
fn db_defaults_fill_missing_values_one_by_one() {
    let info = get_db_address(
        Config {
            server: None,
            database: Some(
                DBCfg {
                    ip: Some("10.0.0.7".to_string()),
                    port: None,
                    username: None,
                    password: Some("pw-from-config".to_string()),
                },
            ),
        },
    );
    assert_eq!(info.ip, "10.0.0.7");
    assert_eq!(info.port, "5432");
    assert_eq!(info.uname, "postgres");
    assert_eq!(info.pass, "pw-from-config");
}

#[test]
fn listener_defaults_fill_a_missing_section() {
    let (ip, port) = get_listen_address(&Config { server: None, database: None });
    assert_eq!(ip, "0.0.0.0");
    assert_eq!(port, "2277");
}

#[test]
fn listener_takes_configured_values() {
    let (ip, port) = get_listen_address(
        &Config {
            server: Some(Server { ip: Some("127.0.0.1".to_string()), port: None }),
            database: None,
        },
    );
    assert_eq!(ip, "127.0.0.1");
    assert_eq!(port, "2277");
}

#[test]
fn clock_readings_are_well_formed() {
    let now = systime();
    assert!(now.nanos < 1_000_000_000);
    // the clock reads after the service could possibly have been written
    assert!(now.secs > 1_500_000_000);

    let again = to_epoch(std::time::SystemTime::now());
    assert!(again.nanos < 1_000_000_000);
    assert!(again.secs >= now.secs);
}
