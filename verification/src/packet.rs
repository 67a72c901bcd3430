//! The packet schema: the tagged-union vocabulary exchanged between client
//! and server, together with its mathematical view and the subsets of
//! variants each protocol state is willing to accept.

use vstd::prelude::*;

verus! {

/// One entry of a message-history listing.
pub struct SentMsg {
    pub message: String,
    pub sender: String,
    pub timestamp: String,
}

/// Mathematical view of a [`SentMsg`]: each text field as a character sequence.
pub struct SentMsgV {
    pub message: Seq<char>,
    pub sender: Seq<char>,
    pub timestamp: Seq<char>,
}

impl View for SentMsg {
    type V = SentMsgV;

    open spec fn view(&self) -> SentMsgV {
        SentMsgV { message: self.message@, sender: self.sender@, timestamp: self.timestamp@ }
    }
}

/// One logical protocol message. Exactly one variant is active per message.
pub enum Packet {
    /// Client to server: check whether the client's version is valid.
    Ping { version: String, disconnecting: bool },
    /// Server to client: whether the version was valid, and the accepted one.
    PingResponse { valid: bool, accepted_version: String },
    /// Client to server: a login or signup attempt.
    LoginRequest { username: String, password: String, signup: bool },
    /// Server to client: whether the attempt succeeded, with a reason if not.
    LoginResponse { valid: bool, error: Option<String> },
    /// Either direction: a private text message.
    Message { message: String, sender: String, recipient: String, timestamp: String },
    /// Client to server: ask whether a user with this name exists.
    UserExistsRequest { username: String },
    /// Client to server: ask whether a user with this name is online.
    UserOnlineRequest { username: String },
    /// Server to client: answer to a user-information request.
    UserResponse { response: bool },
    /// Client to server: ask for the message history with a user.
    MsgHistoryRequest { username: String },
    /// Server to client: an ordered message history.
    MsgHistory { history: Vec<SentMsg> },
    /// Either direction: announce an imminent disconnection.
    Disconnect,
    /// Either direction: announce an error and whether it forces a disconnect.
    Error { should_disconnect: bool, error: String },
}

/// Mathematical view of a [`Packet`]: text as character sequences.
pub enum PacketV {
    Ping { version: Seq<char>, disconnecting: bool },
    PingResponse { valid: bool, accepted_version: Seq<char> },
    LoginRequest { username: Seq<char>, password: Seq<char>, signup: bool },
    LoginResponse { valid: bool, error: Option<Seq<char>> },
    Message { message: Seq<char>, sender: Seq<char>, recipient: Seq<char>, timestamp: Seq<char> },
    UserExistsRequest { username: Seq<char> },
    UserOnlineRequest { username: Seq<char> },
    UserResponse { response: bool },
    MsgHistoryRequest { username: Seq<char> },
    MsgHistory { history: Seq<SentMsgV> },
    Disconnect,
    Error { should_disconnect: bool, error: Seq<char> },
}

impl View for Packet {
    type V = PacketV;

    open spec fn view(&self) -> PacketV {
        match self {
            Packet::Ping { version, disconnecting } => PacketV::Ping {
                version: version@,
                disconnecting: *disconnecting,
            },
            Packet::PingResponse { valid, accepted_version } => PacketV::PingResponse {
                valid: *valid,
                accepted_version: accepted_version@,
            },
            Packet::LoginRequest { username, password, signup } => PacketV::LoginRequest {
                username: username@,
                password: password@,
                signup: *signup,
            },
            Packet::LoginResponse { valid, error } => PacketV::LoginResponse {
                valid: *valid,
                error: match error {
                    Some(e) => Some(e@),
                    None => None,
                },
            },
            Packet::Message { message, sender, recipient, timestamp } => PacketV::Message {
                message: message@,
                sender: sender@,
                recipient: recipient@,
                timestamp: timestamp@,
            },
            Packet::UserExistsRequest { username } => PacketV::UserExistsRequest {
                username: username@,
            },
            Packet::UserOnlineRequest { username } => PacketV::UserOnlineRequest {
                username: username@,
            },
            Packet::UserResponse { response } => PacketV::UserResponse { response: *response },
            Packet::MsgHistoryRequest { username } => PacketV::MsgHistoryRequest {
                username: username@,
            },
            Packet::MsgHistory { history } => PacketV::MsgHistory {
                history: Seq::new(history@.len(), |i: int| history@[i]@),
            },
            Packet::Disconnect => PacketV::Disconnect,
            Packet::Error { should_disconnect, error } => PacketV::Error {
                should_disconnect: *should_disconnect,
                error: error@,
            },
        }
    }
}

/// The subset of packet variants an `expect` or `poll` call is willing to
/// accept in a given protocol state. `Message` is a catch-all for everything
/// legal during active relay.
#[derive(Clone, Copy, PartialEq, Eq, Structural)]
pub enum ExpectedPacket {
    Ping,
    PingResponse,
    LoginRequest,
    LoginResponse,
    Message,
}

/// Which decoded packets are legal for a given expectation. During active
/// relay (`Message`), messages, disconnects, errors and the information
/// request/response variants are all legal.
pub open spec fn accepts(expected: ExpectedPacket, p: PacketV) -> bool {
    match expected {
        ExpectedPacket::Ping => p is Ping,
        ExpectedPacket::PingResponse => p is PingResponse,
        ExpectedPacket::LoginRequest => p is LoginRequest,
        ExpectedPacket::LoginResponse => p is LoginResponse,
        ExpectedPacket::Message => {
            ||| p is Message
            ||| p is Disconnect
            ||| p is Error
            ||| p is UserExistsRequest
            ||| p is UserOnlineRequest
            ||| p is UserResponse
            ||| p is MsgHistoryRequest
            ||| p is MsgHistory
        },
    }
}

/// Runtime check matching [`accepts`].
pub fn packet_accepted(expected: ExpectedPacket, p: &Packet) -> (b: bool)
    ensures
        b == accepts(expected, p@),
{
    match expected {
        ExpectedPacket::Ping => matches!(p, Packet::Ping { .. }),
        ExpectedPacket::PingResponse => matches!(p, Packet::PingResponse { .. }),
        ExpectedPacket::LoginRequest => matches!(p, Packet::LoginRequest { .. }),
        ExpectedPacket::LoginResponse => matches!(p, Packet::LoginResponse { .. }),
        ExpectedPacket::Message => !matches!(
            p,
            Packet::Ping { .. } | Packet::PingResponse { .. } | Packet::LoginRequest { .. }
                | Packet::LoginResponse { .. }
        ),
    }
}

} // verus!
