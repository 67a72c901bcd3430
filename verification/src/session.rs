//! The per-connection session state machine: handshake, authentication,
//! active relay, termination. No transition skips a state, and a failure
//! in any state moves the session straight to `Terminated`.

use vstd::prelude::*;
use crate::packet::{Packet, PacketV};
use crate::repo::{Repository, RepoError, wf, has_username, insert_user, get_id_from_username,
    get_user_from_username};
use crate::validate::{valid_username, valid_password, validate_username, validate_password};
use crate::accepted_version_spec;
use crate::accepted_client_version;

verus! {

/// Where a session stands in its lifecycle.
#[derive(Clone, Copy, PartialEq, Eq, Structural, Debug)]
pub enum SessionPhase {
    /// Accepted, nothing exchanged yet.
    Connected,
    /// Waiting for the client's version ping.
    Handshaking,
    /// Waiting for a login or signup request.
    Authenticating,
    /// Authenticated; the relay owns the connection.
    Active,
    /// Finished; no further protocol work happens.
    Terminated,
}

/// One connection's protocol state: its phase, the authenticated user
/// once login succeeds, and the session-local shutdown flag.
pub struct Session {
    pub phase: SessionPhase,
    pub user_id: Option<u64>,
    pub local_terminate: bool,
}

/// A session is well formed when an active phase comes with an
/// authenticated user.
pub open spec fn session_wf(s: Session) -> bool {
    s.phase is Active ==> s.user_id is Some
}

/// Whether a stored user carries this username with this password: the
/// one condition under which a plain login succeeds.
pub open spec fn login_ok(
    users: Seq<crate::repo::UserV>,
    name: Seq<char>,
    pass: Seq<char>,
) -> bool {
    exists|i: int|
        0 <= i < users.len() && #[trigger] users[i].username == name && users[i].password == pass
}

impl Session {
    /// A fresh session for an accepted connection.
    pub fn new() -> (s: Session)
        ensures
            s.phase == SessionPhase::Connected,
            s.user_id is None,
            !s.local_terminate,
            session_wf(s),
    {
        Session { phase: SessionPhase::Connected, user_id: Option::None, local_terminate: false }
    }

    /// Start waiting for the client's version ping.
    pub fn begin_handshake(&mut self)
        requires
            old(self).phase == SessionPhase::Connected,
        ensures
            final(self).phase == SessionPhase::Handshaking,
            final(self).user_id == old(self).user_id,
            final(self).local_terminate == old(self).local_terminate,
            session_wf(*final(self)),
    {
        self.phase = SessionPhase::Handshaking;
    }

    /// Answer the client's version ping. The reply always carries the
    /// accepted version; it is valid exactly when the client's version
    /// string equals it. Any version mismatch, and any ping that announces
    /// a disconnect, terminates the session before it ever reaches
    /// authentication.
    pub fn handle_ping(&mut self, version: String, disconnecting: bool) -> (reply: Packet)
        requires
            old(self).phase == SessionPhase::Handshaking,
        ensures
            reply@ == (PacketV::PingResponse {
                valid: version@ == accepted_version_spec(),
                accepted_version: accepted_version_spec(),
            }),
            version@ == accepted_version_spec() && !disconnecting ==> final(self).phase
                == SessionPhase::Authenticating,
            version@ != accepted_version_spec() || disconnecting ==> final(self).phase
                == SessionPhase::Terminated,
            final(self).user_id == old(self).user_id,
            final(self).local_terminate == old(self).local_terminate,
            session_wf(*final(self)),
    {
        let accepted = accepted_client_version();
        let valid = version == accepted;
        if valid && !disconnecting {
            self.phase = SessionPhase::Authenticating;
        } else {
            self.phase = SessionPhase::Terminated;
        }
        Packet::PingResponse { valid, accepted_version: accepted }
    }

    /// Handle one login or signup request while authenticating.
    ///
    /// A signup with a malformed username or password is rejected with a
    /// format error and changes nothing, whatever the store holds. A
    /// signup whose username is taken, or that the store cannot accept,
    /// is rejected as taken and changes nothing. A plain login is refused
    /// with one fixed message — the same for an unknown username and for
    /// a wrong password — and mutates nothing, however often it is
    /// retried. Only a valid signup or a correct password moves the
    /// session to the active phase.
    #[verifier::rlimit(60)]
    pub fn handle_login_request(
        &mut self,
        repo: &mut Repository,
        username: String,
        password: String,
        signup: bool,
    ) -> (reply: Packet)
        requires
            old(self).phase == SessionPhase::Authenticating,
            wf(old(repo)@),
        ensures
            wf(final(repo)@),
            session_wf(*final(self)),
            final(self).local_terminate == old(self).local_terminate,
            // a malformed signup username is rejected, independent of the store
            signup && !valid_username(username@) ==> reply@ == (PacketV::LoginResponse {
                valid: false,
                error: Option::Some("Invalid characters in username"@),
            }) && final(repo)@ == old(repo)@ && *final(self) == *old(self),
            // a malformed signup password is rejected, independent of the store
            signup && valid_username(username@) && !valid_password(password@) ==> reply@ == (
            PacketV::LoginResponse {
                valid: false,
                error: Option::Some("Invalid characters in password"@),
            }) && final(repo)@ == old(repo)@ && *final(self) == *old(self),
            // a taken username, or a store that cannot accept another record,
            // rejects the signup and changes nothing
            signup && valid_username(username@) && valid_password(password@) && (has_username(
                old(repo)@.users,
                username@,
            ) || old(repo)@.next_user_id == u64::MAX) ==> reply@ == (PacketV::LoginResponse {
                valid: false,
                error: Option::Some("Username is taken"@),
            }) && final(repo)@ == old(repo)@ && *final(self) == *old(self),
            // a valid signup creates the user and activates the session as them
            signup && valid_username(username@) && valid_password(password@) && !has_username(
                old(repo)@.users,
                username@,
            ) && old(repo)@.next_user_id < u64::MAX ==> reply@ == (PacketV::LoginResponse {
                valid: true,
                error: Option::None,
            }) && final(repo)@.users == old(repo)@.users.push(
                (crate::repo::UserV {
                    id: old(repo)@.next_user_id,
                    username: username@,
                    password: password@,
                }),
            ) && final(repo)@.queue == old(repo)@.queue && final(self).phase
                == SessionPhase::Active && final(self).user_id == Option::Some(
                old(repo)@.next_user_id,
            ),
            // a failed login: one fixed reply, nothing mutated, no lockout
            !signup && !login_ok(old(repo)@.users, username@, password@) ==> reply@ == (
            PacketV::LoginResponse {
                valid: false,
                error: Option::Some("Invalid login credentials"@),
            }) && final(repo)@ == old(repo)@ && *final(self) == *old(self),
            // a correct login activates the session as the stored user
            !signup && login_ok(old(repo)@.users, username@, password@) ==> reply@ == (
            PacketV::LoginResponse {
                valid: true,
                error: Option::None,
            }) && final(repo)@ == old(repo)@ && final(self).phase == SessionPhase::Active && (
            exists|i: int|
                0 <= i < old(repo)@.users.len() && #[trigger] old(repo)@.users[i].username
                    == username@ && old(repo)@.users[i].password == password@
                    && final(self).user_id == Option::Some(old(repo)@.users[i].id)),
    {
        if signup {
            if let Option::Some(reply) = signup_validation_reply(&username, &password) {
                return reply;
            }
            let uname_copy = username.clone();
            let ghost prev = repo@;
            match insert_user(repo, username, password) {
                Result::Ok(_) => {
                    proof {
                        assert(final(repo)@.users[prev.users.len() as int].username
                            == uname_copy@);
                        assert(has_username(final(repo)@.users, uname_copy@));
                    }
                    match get_id_from_username(repo, uname_copy) {
                        Result::Ok(id) => {
                            proof {
                                let users = repo@.users;
                                let i = choose|i: int|
                                    0 <= i < users.len() && #[trigger] users[i].username
                                        == uname_copy@ && users[i].id == id;
                                if i < prev.users.len() {
                                    assert(users[i] == prev.users[i]);
                                    assert(prev.users[i].username == uname_copy@);
                                    assert(has_username(prev.users, uname_copy@));
                                    assert(false);
                                }
                                assert(id == prev.next_user_id);
                            }
                            self.phase = SessionPhase::Active;
                            self.user_id = Option::Some(id);
                            let (reply, _) = signup_insert_reply(true);
                            reply
                        },
                        Result::Err(_) => {
                            proof {
                                assert(false);
                            }
                            vstd::pervasive::unreached()
                        },
                    }
                },
                Result::Err(_) => {
                    let (reply, _) = signup_insert_reply(false);
                    reply
                },
            }
        } else {
            let lookup = get_user_from_username(repo, username.clone());
            let ghost glookup = lookup;
            let (reply, uid) = login_decision(lookup, &password);
            proof {
                let users = repo@.users;
                match glookup {
                    Result::Ok((id, stored_password)) => {
                        let j = choose|j: int|
                            0 <= j < users.len() && #[trigger] users[j].username == username@
                                && users[j].id == id && users[j].password == stored_password@;
                        if stored_password@ == password@ {
                            assert(users[j].password == password@);
                            assert(login_ok(users, username@, password@));
                        } else {
                            if login_ok(users, username@, password@) {
                                let i = choose|i: int|
                                    0 <= i < users.len() && #[trigger] users[i].username
                                        == username@ && users[i].password == password@;
                                if i != j {
                                    assert(users[i].username != users[j].username);
                                }
                                assert(false);
                            }
                        }
                    },
                    Result::Err(_) => {
                        if login_ok(users, username@, password@) {
                            let i = choose|i: int|
                                0 <= i < users.len() && #[trigger] users[i].username == username@
                                    && users[i].password == password@;
                            assert(has_username(users, username@));
                            assert(false);
                        }
                    },
                }
            }
            match uid {
                Option::Some(id) => {
                    self.phase = SessionPhase::Active;
                    self.user_id = Option::Some(id);
                },
                Option::None => {},
            }
            reply
        }
    }

    /// Record a transport failure: the session is over, whatever state it
    /// was in.
    pub fn transport_failed(&mut self)
        ensures
            final(self).phase == SessionPhase::Terminated,
            final(self).user_id == old(self).user_id,
            final(self).local_terminate == old(self).local_terminate,
            session_wf(*final(self)),
    {
        self.phase = SessionPhase::Terminated;
    }

    /// Close the session once the relay has returned.
    pub fn finish(&mut self)
        ensures
            final(self).phase == SessionPhase::Terminated,
            final(self).user_id == old(self).user_id,
            final(self).local_terminate == old(self).local_terminate,
            session_wf(*final(self)),
    {
        self.phase = SessionPhase::Terminated;
    }

    /// Raise the session-local shutdown flag.
    pub fn request_local_shutdown(&mut self)
        ensures
            final(self).phase == old(self).phase,
            final(self).user_id == old(self).user_id,
            final(self).local_terminate,
            session_wf(*old(self)) ==> session_wf(*final(self)),
    {
        self.local_terminate = true;
    }
}

/// The reply to a signup whose credentials fail validation, if either
/// does: the decision a caller takes before it ever touches its store.
pub fn signup_validation_reply(username: &String, password: &String) -> (r: Option<Packet>)
    ensures
        !valid_username(username@) ==> (r matches Some(p) && p@ == (PacketV::LoginResponse {
            valid: false,
            error: Option::Some("Invalid characters in username"@),
        })),
        valid_username(username@) && !valid_password(password@) ==> (r matches Some(p) && p@ == (
        PacketV::LoginResponse {
            valid: false,
            error: Option::Some("Invalid characters in password"@),
        })),
        valid_username(username@) && valid_password(password@) ==> r is None,
{
    if !validate_username(username.clone()) {
        Option::Some(
            Packet::LoginResponse {
                valid: false,
                error: Option::Some(String::from_str("Invalid characters in username")),
            },
        )
    } else if !validate_password(password.clone()) {
        Option::Some(
            Packet::LoginResponse {
                valid: false,
                error: Option::Some(String::from_str("Invalid characters in password")),
            },
        )
    } else {
        Option::None
    }
}

/// The reply once a validated signup has been offered to the store:
/// success is announced as a valid login, and any store refusal is
/// reported as a taken username.
pub fn signup_insert_reply(inserted: bool) -> (r: (Packet, bool))
    ensures
        inserted ==> r.0@ == (PacketV::LoginResponse { valid: true, error: Option::None }) && r.1,
        !inserted ==> r.0@ == (PacketV::LoginResponse {
            valid: false,
            error: Option::Some("Username is taken"@),
        }) && !r.1,
{
    if inserted {
        (Packet::LoginResponse { valid: true, error: Option::None }, true)
    } else {
        (
            Packet::LoginResponse {
                valid: false,
                error: Option::Some(String::from_str("Username is taken")),
            },
            false,
        )
    }
}

/// The reply to a plain login, given what the store's lookup returned:
/// one fixed refusal for a missing user and for a wrong password alike,
/// and the stored user's identity exactly when the password matches.
pub fn login_decision(lookup: Result<(u64, String), RepoError>, password: &String) -> (r: (
    Packet,
    Option<u64>,
))
    ensures
        lookup matches Err(_) ==> r.0@ == (PacketV::LoginResponse {
            valid: false,
            error: Option::Some("Invalid login credentials"@),
        }) && r.1 is None,
        lookup matches Ok(p) ==> (if p.1@ == password@ {
            r.0@ == (PacketV::LoginResponse { valid: true, error: Option::None }) && r.1
                == Option::Some(p.0)
        } else {
            r.0@ == (PacketV::LoginResponse {
                valid: false,
                error: Option::Some("Invalid login credentials"@),
            }) && r.1 is None
        }),
{
    match lookup {
        Result::Ok((id, stored_password)) => {
            if *password == stored_password {
                (Packet::LoginResponse { valid: true, error: Option::None }, Option::Some(id))
            } else {
                (
                    Packet::LoginResponse {
                        valid: false,
                        error: Option::Some(String::from_str("Invalid login credentials")),
                    },
                    Option::None,
                )
            }
        },
        Result::Err(_) => (
            Packet::LoginResponse {
                valid: false,
                error: Option::Some(String::from_str("Invalid login credentials")),
            },
            Option::None,
        ),
    }
}

} // verus!
