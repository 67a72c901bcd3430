//! Parsed configuration values and the defaults that fill their gaps.
//! Reading and parsing the configuration files is the surrounding
//! program's business; resolving the values it parsed is specified here.

use vstd::prelude::*;

verus! {

/// The listener section of the configuration, as parsed.
pub struct Server {
    pub ip: Option<String>,
    pub port: Option<String>,
}

/// The database section of the configuration, as parsed.
pub struct DBCfg {
    pub ip: Option<String>,
    pub port: Option<String>,
    pub username: Option<String>,
    pub password: Option<String>,
}

/// A whole parsed configuration; either section may be missing.
pub struct Config {
    pub server: Option<Server>,
    pub database: Option<DBCfg>,
}

/// Where the database lives and how to authenticate against it.
pub struct DBInfo {
    pub ip: String,
    pub port: String,
    pub uname: String,
    pub pass: String,
}

/// Resolve the database connection settings from a parsed configuration:
/// every value the configuration carries is taken as is, and every
/// missing one falls back to its documented default.
pub fn get_db_address(config: Config) -> (r: DBInfo)
    ensures
        r.ip@ == (match config.database {
            Option::Some(d) => (match d.ip {
                Option::Some(v) => v@,
                Option::None => "localhost"@,
            }),
            Option::None => "localhost"@,
        }),
        r.port@ == (match config.database {
            Option::Some(d) => (match d.port {
                Option::Some(v) => v@,
                Option::None => "5432"@,
            }),
            Option::None => "5432"@,
        }),
        r.uname@ == (match config.database {
            Option::Some(d) => (match d.username {
                Option::Some(v) => v@,
                Option::None => "postgres"@,
            }),
            Option::None => "postgres"@,
        }),
        r.pass@ == (match config.database {
            Option::Some(d) => (match d.password {
                Option::Some(v) => v@,
                Option::None => "admin"@,
            }),
            Option::None => "admin"@,
        }),
{
    match config.database {
        Option::Some(d) => {
            let ip = match d.ip {
                Option::Some(v) => v,
                Option::None => String::from_str("localhost"),
            };
            let port = match d.port {
                Option::Some(v) => v,
                Option::None => String::from_str("5432"),
            };
            let uname = match d.username {
                Option::Some(v) => v,
                Option::None => String::from_str("postgres"),
            };
            let pass = match d.password {
                Option::Some(v) => v,
                Option::None => String::from_str("admin"),
            };
            DBInfo { ip, port, uname, pass }
        },
        Option::None => DBInfo {
            ip: String::from_str("localhost"),
            port: String::from_str("5432"),
            uname: String::from_str("postgres"),
            pass: String::from_str("admin"),
        },
    }
}

/// Resolve the listener's address from a parsed configuration: the
/// configured values where present, the documented defaults where not.
pub fn get_listen_address(config: &Config) -> (r: (String, String))
    ensures
        r.0@ == (match config.server {
            Option::Some(s) => (match s.ip {
                Option::Some(v) => v@,
                Option::None => "0.0.0.0"@,
            }),
            Option::None => "0.0.0.0"@,
        }),
        r.1@ == (match config.server {
            Option::Some(s) => (match s.port {
                Option::Some(v) => v@,
                Option::None => "2277"@,
            }),
            Option::None => "2277"@,
        }),
{
    match &config.server {
        Option::Some(s) => {
            let ip = match &s.ip {
                Option::Some(v) => v.clone(),
                Option::None => String::from_str("0.0.0.0"),
            };
            let port = match &s.port {
                Option::Some(v) => v.clone(),
                Option::None => String::from_str("2277"),
            };
            (ip, port)
        },
        Option::None => (String::from_str("0.0.0.0"), String::from_str("2277")),
    }
}

} // verus!
