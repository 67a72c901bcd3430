//! Wire codec for the packet schema: a length-delimited, tag-prefixed
//! binary form. Every frame is one tag byte followed by the packet's
//! fields; text travels as a four-byte little-endian byte count followed
//! by the UTF-8 bytes. Encoding and decoding are exact inverses, and a
//! decoded-but-unexpected packet is reported as an error, never as a
//! corrupt packet.

use vstd::prelude::*;
use vstd::utf8::{encode_utf8, decode_utf8, valid_utf8};
use vstd::utf8::{encode_utf8_valid_utf8, encode_utf8_decode_utf8, decode_utf8_encode_utf8};
use crate::packet::{Packet, PacketV, SentMsg, SentMsgV, ExpectedPacket, accepts, packet_accepted};

verus! {

/// Why a frame failed to decode: malformed bytes, or a well-formed packet
/// of a kind the caller was not willing to accept.
#[derive(Clone, Copy, PartialEq, Eq, Structural, Debug)]
pub enum DecodeError {
    Malformed,
    Unexpected,
}

// ---------------------------------------------------------------------------
// Encoding, specified
// ---------------------------------------------------------------------------

/// A 32-bit value as four little-endian bytes.
pub open spec fn enc_u32(x: u32) -> Seq<u8> {
    seq![
        (x % 0x100) as u8,
        ((x / 0x100) % 0x100) as u8,
        ((x / 0x10000) % 0x100) as u8,
        ((x / 0x1000000) % 0x100) as u8,
    ]
}

/// A boolean as one byte, 0 or 1.
pub open spec fn enc_bool(b: bool) -> Seq<u8> {
    if b {
        seq![1u8]
    } else {
        seq![0u8]
    }
}

/// A text field: byte count, then the UTF-8 bytes.
pub open spec fn enc_str(s: Seq<char>) -> Seq<u8> {
    enc_u32(encode_utf8(s).len() as u32) + encode_utf8(s)
}

/// An optional text field: a presence byte, then the text if present.
pub open spec fn enc_opt_str(e: Option<Seq<char>>) -> Seq<u8> {
    match e {
        Option::None => seq![0u8],
        Option::Some(s) => seq![1u8] + enc_str(s),
    }
}

/// One history entry: its three text fields in order.
#[verifier::opaque]
pub open spec fn enc_msg(m: SentMsgV) -> Seq<u8> {
    enc_str(m.message) + enc_str(m.sender) + enc_str(m.timestamp)
}

/// A history listing: the entries' encodings, in order.
pub open spec fn enc_msgs(h: Seq<SentMsgV>) -> Seq<u8>
    decreases h.len(),
{
    if h.len() == 0 {
        Seq::empty()
    } else {
        enc_msg(h[0]) + enc_msgs(h.drop_first())
    }
}

/// Whether a text field's UTF-8 form fits the four-byte length prefix.
pub open spec fn str_fits(s: Seq<char>) -> bool {
    encode_utf8(s).len() <= u32::MAX
}

/// Whether a history entry's three text fields all fit.
pub open spec fn msg_fits(m: SentMsgV) -> bool {
    str_fits(m.message) && str_fits(m.sender) && str_fits(m.timestamp)
}

/// Whether a packet can be framed: every length fits its prefix.
pub open spec fn encodable(p: PacketV) -> bool {
    match p {
        PacketV::Ping { version, .. } => str_fits(version),
        PacketV::PingResponse { accepted_version, .. } => str_fits(accepted_version),
        PacketV::LoginRequest { username, password, .. } => str_fits(username) && str_fits(
            password,
        ),
        PacketV::LoginResponse { error, .. } => match error {
            Option::Some(e) => str_fits(e),
            Option::None => true,
        },
        PacketV::Message { message, sender, recipient, timestamp } => str_fits(message)
            && str_fits(sender) && str_fits(recipient) && str_fits(timestamp),
        PacketV::UserExistsRequest { username } => str_fits(username),
        PacketV::UserOnlineRequest { username } => str_fits(username),
        PacketV::UserResponse { .. } => true,
        PacketV::MsgHistoryRequest { username } => str_fits(username),
        PacketV::MsgHistory { history } => history.len() <= u32::MAX && (forall|i: int|
            0 <= i < history.len() ==> msg_fits(#[trigger] history[i])),
        PacketV::Disconnect => true,
        PacketV::Error { error, .. } => str_fits(error),
    }
}

/// The frame for a packet: one tag byte, then the fields.
pub open spec fn encode_spec(p: PacketV) -> Seq<u8> {
    match p {
        PacketV::Ping { version, disconnecting } => seq![1u8] + enc_str(version) + enc_bool(
            disconnecting,
        ),
        PacketV::PingResponse { valid, accepted_version } => seq![2u8] + enc_bool(valid) + enc_str(
            accepted_version,
        ),
        PacketV::LoginRequest { username, password, signup } => seq![3u8] + enc_str(username)
            + enc_str(password) + enc_bool(signup),
        PacketV::LoginResponse { valid, error } => seq![4u8] + enc_bool(valid) + enc_opt_str(error),
        PacketV::Message { message, sender, recipient, timestamp } => seq![5u8] + enc_str(message)
            + enc_str(sender) + enc_str(recipient) + enc_str(timestamp),
        PacketV::UserExistsRequest { username } => seq![6u8] + enc_str(username),
        PacketV::UserOnlineRequest { username } => seq![7u8] + enc_str(username),
        PacketV::UserResponse { response } => seq![8u8] + enc_bool(response),
        PacketV::MsgHistoryRequest { username } => seq![9u8] + enc_str(username),
        PacketV::MsgHistory { history } => seq![10u8] + enc_u32(history.len() as u32) + enc_msgs(
            history,
        ),
        PacketV::Disconnect => seq![11u8],
        PacketV::Error { should_disconnect, error } => seq![12u8] + enc_str(error) + enc_bool(
            should_disconnect,
        ),
    }
}

// ---------------------------------------------------------------------------
// Decoding, specified
// ---------------------------------------------------------------------------

/// The 32-bit value at offset `i`, little-endian.
pub open spec fn dec_u32_at(s: Seq<u8>, i: int) -> u32
    recommends
        0 <= i,
        i + 4 <= s.len(),
{
    (s[i] + s[i + 1] * 0x100 + s[i + 2] * 0x10000 + s[i + 3] * 0x1000000) as u32
}

/// Read a boolean byte at offset `i`; only 0 and 1 are well formed.
pub open spec fn dec_bool(s: Seq<u8>, i: int) -> Option<(bool, int)> {
    if 0 <= i < s.len() && (s[i] == 0 || s[i] == 1) {
        Option::Some((s[i] == 1, i + 1))
    } else {
        Option::None
    }
}

/// Read a text field at offset `i`: a byte count, then that many bytes of
/// valid UTF-8.
pub open spec fn dec_str(s: Seq<u8>, i: int) -> Option<(Seq<char>, int)> {
    if 0 <= i && i + 4 <= s.len() {
        let n = dec_u32_at(s, i) as int;
        if i + 4 + n <= s.len() && valid_utf8(s.subrange(i + 4, i + 4 + n)) {
            Option::Some((decode_utf8(s.subrange(i + 4, i + 4 + n)), i + 4 + n))
        } else {
            Option::None
        }
    } else {
        Option::None
    }
}

/// Read an optional text field at offset `i`.
pub open spec fn dec_opt_str(s: Seq<u8>, i: int) -> Option<(Option<Seq<char>>, int)> {
    match dec_bool(s, i) {
        Option::Some((present, j)) => if present {
            match dec_str(s, j) {
                Option::Some((cs, k)) => Option::Some((Option::Some(cs), k)),
                Option::None => Option::None,
            }
        } else {
            Option::Some((Option::None, j))
        },
        Option::None => Option::None,
    }
}

/// Read one history entry at offset `i`.
pub open spec fn dec_msg(s: Seq<u8>, i: int) -> Option<(SentMsgV, int)> {
    match dec_str(s, i) {
        Option::Some((message, j)) => match dec_str(s, j) {
            Option::Some((sender, k)) => match dec_str(s, k) {
                Option::Some((timestamp, l)) => Option::Some(
                    (SentMsgV { message, sender, timestamp }, l),
                ),
                Option::None => Option::None,
            },
            Option::None => Option::None,
        },
        Option::None => Option::None,
    }
}

/// Read `n` history entries starting at offset `i`.
pub open spec fn dec_msgs(s: Seq<u8>, i: int, n: nat) -> Option<(Seq<SentMsgV>, int)>
    decreases n,
{
    if n == 0 {
        Option::Some((Seq::empty(), i))
    } else {
        match dec_msg(s, i) {
            Option::Some((m, j)) => match dec_msgs(s, j, (n - 1) as nat) {
                Option::Some((ms, k)) => Option::Some((seq![m] + ms, k)),
                Option::None => Option::None,
            },
            Option::None => Option::None,
        }
    }
}

/// The packet a frame holds, if the frame is well formed: a known tag,
/// well-formed fields, and nothing left over.
pub open spec fn decode_spec(s: Seq<u8>) -> Option<PacketV> {
    if s.len() == 0 {
        Option::None
    } else {
        let tag = s[0];
        if tag == 1 {
            match dec_str(s, 1) {
                Option::Some((version, i)) => match dec_bool(s, i) {
                    Option::Some((disconnecting, j)) => if j == s.len() {
                        Option::Some(PacketV::Ping { version, disconnecting })
                    } else {
                        Option::None
                    },
                    Option::None => Option::None,
                },
                Option::None => Option::None,
            }
        } else if tag == 2 {
            match dec_bool(s, 1) {
                Option::Some((valid, i)) => match dec_str(s, i) {
                    Option::Some((accepted_version, j)) => if j == s.len() {
                        Option::Some(PacketV::PingResponse { valid, accepted_version })
                    } else {
                        Option::None
                    },
                    Option::None => Option::None,
                },
                Option::None => Option::None,
            }
        } else if tag == 3 {
            match dec_str(s, 1) {
                Option::Some((username, i)) => match dec_str(s, i) {
                    Option::Some((password, j)) => match dec_bool(s, j) {
                        Option::Some((signup, k)) => if k == s.len() {
                            Option::Some(PacketV::LoginRequest { username, password, signup })
                        } else {
                            Option::None
                        },
                        Option::None => Option::None,
                    },
                    Option::None => Option::None,
                },
                Option::None => Option::None,
            }
        } else if tag == 4 {
            match dec_bool(s, 1) {
                Option::Some((valid, i)) => match dec_opt_str(s, i) {
                    Option::Some((error, j)) => if j == s.len() {
                        Option::Some(PacketV::LoginResponse { valid, error })
                    } else {
                        Option::None
                    },
                    Option::None => Option::None,
                },
                Option::None => Option::None,
            }
        } else if tag == 5 {
            match dec_str(s, 1) {
                Option::Some((message, i)) => match dec_str(s, i) {
                    Option::Some((sender, j)) => match dec_str(s, j) {
                        Option::Some((recipient, k)) => match dec_str(s, k) {
                            Option::Some((timestamp, l)) => if l == s.len() {
                                Option::Some(
                                    PacketV::Message { message, sender, recipient, timestamp },
                                )
                            } else {
                                Option::None
                            },
                            Option::None => Option::None,
                        },
                        Option::None => Option::None,
                    },
                    Option::None => Option::None,
                },
                Option::None => Option::None,
            }
        } else if tag == 6 {
            match dec_str(s, 1) {
                Option::Some((username, i)) => if i == s.len() {
                    Option::Some(PacketV::UserExistsRequest { username })
                } else {
                    Option::None
                },
                Option::None => Option::None,
            }
        } else if tag == 7 {
            match dec_str(s, 1) {
                Option::Some((username, i)) => if i == s.len() {
                    Option::Some(PacketV::UserOnlineRequest { username })
                } else {
                    Option::None
                },
                Option::None => Option::None,
            }
        } else if tag == 8 {
            match dec_bool(s, 1) {
                Option::Some((response, i)) => if i == s.len() {
                    Option::Some(PacketV::UserResponse { response })
                } else {
                    Option::None
                },
                Option::None => Option::None,
            }
        } else if tag == 9 {
            match dec_str(s, 1) {
                Option::Some((username, i)) => if i == s.len() {
                    Option::Some(PacketV::MsgHistoryRequest { username })
                } else {
                    Option::None
                },
                Option::None => Option::None,
            }
        } else if tag == 10 {
            if 1 + 4 <= s.len() {
                let n = dec_u32_at(s, 1) as nat;
                match dec_msgs(s, 5, n) {
                    Option::Some((history, i)) => if i == s.len() {
                        Option::Some(PacketV::MsgHistory { history })
                    } else {
                        Option::None
                    },
                    Option::None => Option::None,
                }
            } else {
                Option::None
            }
        } else if tag == 11 {
            if s.len() == 1 {
                Option::Some(PacketV::Disconnect)
            } else {
                Option::None
            }
        } else if tag == 12 {
            match dec_str(s, 1) {
                Option::Some((error, i)) => match dec_bool(s, i) {
                    Option::Some((should_disconnect, j)) => if j == s.len() {
                        Option::Some(PacketV::Error { should_disconnect, error })
                    } else {
                        Option::None
                    },
                    Option::None => Option::None,
                },
                Option::None => Option::None,
            }
        } else {
            Option::None
        }
    }
}

// ---------------------------------------------------------------------------
// Little-endian arithmetic facts
// ---------------------------------------------------------------------------

proof fn lemma_u32_le_round_trip(x: u32)
    ensures
        dec_u32_at(enc_u32(x), 0) == x,
{
    assert(x % 0x100 + ((x / 0x100) % 0x100) * 0x100 + ((x / 0x10000) % 0x100) * 0x10000 + ((x
        / 0x1000000) % 0x100) * 0x1000000 == x) by (bit_vector);
}

proof fn lemma_u32_le_bytes(s: Seq<u8>, i: int)
    requires
        0 <= i,
        i + 4 <= s.len(),
    ensures
        enc_u32(dec_u32_at(s, i)) == s.subrange(i, i + 4),
{
    let b0 = s[i];
    let b1 = s[i + 1];
    let b2 = s[i + 2];
    let b3 = s[i + 3];
    let x = dec_u32_at(s, i);
    assert(x == b0 + b1 * 0x100 + b2 * 0x10000 + b3 * 0x1000000);
    assert((b0 + b1 * 0x100 + b2 * 0x10000 + b3 * 0x1000000) % 0x100 == b0
        && ((b0 + b1 * 0x100 + b2 * 0x10000 + b3 * 0x1000000) / 0x100) % 0x100 == b1 && ((b0 + b1
        * 0x100 + b2 * 0x10000 + b3 * 0x1000000) / 0x10000) % 0x100 == b2 && ((b0 + b1 * 0x100 + b2
        * 0x10000 + b3 * 0x1000000) / 0x1000000) % 0x100 == b3) by (bit_vector);
    assert(enc_u32(x) =~= s.subrange(i, i + 4));
}

// ---------------------------------------------------------------------------
// Encoding, executable
// ---------------------------------------------------------------------------

fn push_u32(out: &mut Vec<u8>, x: u32)
    ensures
        final(out)@ == old(out)@ + enc_u32(x),
{
    out.push((x % 0x100) as u8);
    out.push(((x / 0x100) % 0x100) as u8);
    out.push(((x / 0x10000) % 0x100) as u8);
    out.push(((x / 0x1000000) % 0x100) as u8);
    assert(out@ =~= old(out)@ + enc_u32(x));
}

fn push_bool(out: &mut Vec<u8>, b: bool)
    ensures
        final(out)@ == old(out)@ + enc_bool(b),
{
    out.push(if b {
        1u8
    } else {
        0u8
    });
    assert(out@ =~= old(out)@ + enc_bool(b));
}

fn push_str(out: &mut Vec<u8>, s: &str)
    requires
        str_fits(s@),
    ensures
        final(out)@ == old(out)@ + enc_str(s@),
{
    let bytes = s.as_bytes();
    let n = bytes.len();
    push_u32(out, n as u32);
    let ghost mid = out@;
    let mut k: usize = 0;
    while k < n
        invariant
            n == bytes@.len(),
            k <= n,
            out@ == mid + bytes@.subrange(0, k as int),
        decreases n - k,
    {
        out.push(bytes[k]);
        assert(out@ =~= mid + bytes@.subrange(0, k as int + 1));
        k = k + 1;
    }
    assert(bytes@.subrange(0, n as int) =~= bytes@);
    assert(out@ =~= old(out)@ + enc_str(s@));
}

/// Whether a text field fits the four-byte length prefix.
fn check_fits(s: &str) -> (b: bool)
    ensures
        b == str_fits(s@),
{
    let bytes = s.as_bytes();
    bytes.len() <= u32::MAX as usize
}

#[verifier::rlimit(100)]
proof fn lemma_enc_msgs_push(h: Seq<SentMsgV>, m: SentMsgV)
    ensures
        enc_msgs(h.push(m)) == enc_msgs(h) + enc_msg(m),
    decreases h.len(),
{
    if h.len() == 0 {
        reveal_with_fuel(enc_msgs, 2);
        assert(h.push(m).drop_first() =~= Seq::<SentMsgV>::empty());
        assert(h.push(m)[0] == m);
        assert(enc_msgs(Seq::<SentMsgV>::empty()) == Seq::<u8>::empty());
        assert(enc_msgs(h.push(m)) == enc_msg(m) + Seq::<u8>::empty());
        assert(enc_msg(m) + Seq::<u8>::empty() =~= enc_msg(m));
        assert(Seq::<u8>::empty() + enc_msg(m) =~= enc_msg(m));
    } else {
        lemma_enc_msgs_push(h.drop_first(), m);
        assert(h.push(m).drop_first() =~= h.drop_first().push(m));
        assert(h.push(m)[0] == h[0]);
        assert(enc_msgs(h.push(m)) == enc_msg(h[0]) + (enc_msgs(h.drop_first()) + enc_msg(m)));
        vstd::seq_lib::lemma_concat_associative(
            enc_msg(h[0]),
            enc_msgs(h.drop_first()),
            enc_msg(m),
        );
    }
}

/// Frame a packet for the wire. Returns `None` exactly when some field is
/// too long for its length prefix.
#[verifier::loop_isolation(false)]
#[verifier::rlimit(100)]
pub fn encode_packet(p: &Packet) -> (r: Option<Vec<u8>>)
    ensures
        r is Some <==> encodable(p@),
        r matches Some(v) ==> v@ == encode_spec(p@),
{
    match p {
        Packet::Ping { version, disconnecting } => {
            if !check_fits(version.as_str()) {
                return Option::None;
            }
            let mut out: Vec<u8> = Vec::new();
            out.push(1u8);
            assert(out@ =~= seq![1u8]);
            push_str(&mut out, version.as_str());
            push_bool(&mut out, *disconnecting);
            assert(out@ =~= encode_spec(p@));
            Option::Some(out)
        },
        Packet::PingResponse { valid, accepted_version } => {
            if !check_fits(accepted_version.as_str()) {
                return Option::None;
            }
            let mut out: Vec<u8> = Vec::new();
            out.push(2u8);
            assert(out@ =~= seq![2u8]);
            push_bool(&mut out, *valid);
            push_str(&mut out, accepted_version.as_str());
            assert(out@ =~= encode_spec(p@));
            Option::Some(out)
        },
        Packet::LoginRequest { username, password, signup } => {
            if !check_fits(username.as_str()) || !check_fits(password.as_str()) {
                return Option::None;
            }
            let mut out: Vec<u8> = Vec::new();
            out.push(3u8);
            assert(out@ =~= seq![3u8]);
            push_str(&mut out, username.as_str());
            push_str(&mut out, password.as_str());
            push_bool(&mut out, *signup);
            assert(out@ =~= encode_spec(p@));
            Option::Some(out)
        },
        Packet::LoginResponse { valid, error } => {
            match error {
                Option::Some(e) => {
                    if !check_fits(e.as_str()) {
                        return Option::None;
                    }
                    let mut out: Vec<u8> = Vec::new();
                    out.push(4u8);
                    assert(out@ =~= seq![4u8]);
                    push_bool(&mut out, *valid);
                    push_bool(&mut out, true);
                    push_str(&mut out, e.as_str());
                    assert(out@ =~= encode_spec(p@));
                    Option::Some(out)
                },
                Option::None => {
                    let mut out: Vec<u8> = Vec::new();
                    out.push(4u8);
                    assert(out@ =~= seq![4u8]);
                    push_bool(&mut out, *valid);
                    push_bool(&mut out, false);
                    assert(out@ =~= encode_spec(p@));
                    Option::Some(out)
                },
            }
        },
        Packet::Message { message, sender, recipient, timestamp } => {
            if !check_fits(message.as_str()) || !check_fits(sender.as_str()) || !check_fits(
                recipient.as_str(),
            ) || !check_fits(timestamp.as_str()) {
                return Option::None;
            }
            let mut out: Vec<u8> = Vec::new();
            out.push(5u8);
            assert(out@ =~= seq![5u8]);
            push_str(&mut out, message.as_str());
            push_str(&mut out, sender.as_str());
            push_str(&mut out, recipient.as_str());
            push_str(&mut out, timestamp.as_str());
            assert(out@ =~= encode_spec(p@));
            Option::Some(out)
        },
        Packet::UserExistsRequest { username } => {
            if !check_fits(username.as_str()) {
                return Option::None;
            }
            let mut out: Vec<u8> = Vec::new();
            out.push(6u8);
            assert(out@ =~= seq![6u8]);
            push_str(&mut out, username.as_str());
            assert(out@ =~= encode_spec(p@));
            Option::Some(out)
        },
        Packet::UserOnlineRequest { username } => {
            if !check_fits(username.as_str()) {
                return Option::None;
            }
            let mut out: Vec<u8> = Vec::new();
            out.push(7u8);
            assert(out@ =~= seq![7u8]);
            push_str(&mut out, username.as_str());
            assert(out@ =~= encode_spec(p@));
            Option::Some(out)
        },
        Packet::UserResponse { response } => {
            let mut out: Vec<u8> = Vec::new();
            out.push(8u8);
            assert(out@ =~= seq![8u8]);
            push_bool(&mut out, *response);
            assert(out@ =~= encode_spec(p@));
            Option::Some(out)
        },
        Packet::MsgHistoryRequest { username } => {
            if !check_fits(username.as_str()) {
                return Option::None;
            }
            let mut out: Vec<u8> = Vec::new();
            out.push(9u8);
            assert(out@ =~= seq![9u8]);
            push_str(&mut out, username.as_str());
            assert(out@ =~= encode_spec(p@));
            Option::Some(out)
        },
        Packet::MsgHistory { history } => {
            let ghost hv = p@->MsgHistory_history;
            let count = history.len();
            if count > u32::MAX as usize {
                return Option::None;
            }
            let mut k: usize = 0;
            while k < count
                invariant
                    count == history@.len(),
                    k <= count,
                    hv == Seq::new(history@.len(), |i: int| history@[i]@),
                    forall|i: int| 0 <= i < k ==> msg_fits(#[trigger] hv[i]),
                decreases count - k,
            {
                let m = &history[k];
                if !check_fits(m.message.as_str()) || !check_fits(m.sender.as_str())
                    || !check_fits(m.timestamp.as_str()) {
                    proof {
                        assert(hv[k as int] == history@[k as int]@);
                        assert(!msg_fits(hv[k as int]));
                        assert(0 <= (k as int) && (k as int) < hv.len());
                        assert(!(forall|i: int|
                            0 <= i < hv.len() ==> msg_fits(#[trigger] hv[i])));
                        assert(!encodable(p@));
                    }
                    return Option::None;
                }
                k = k + 1;
            }
            let mut out: Vec<u8> = Vec::new();
            out.push(10u8);
            assert(out@ =~= seq![10u8]);
            push_u32(&mut out, count as u32);
            let ghost mid = out@;
            let mut j: usize = 0;
            while j < count
                invariant
                    count == history@.len(),
                    j <= count,
                    hv == Seq::new(history@.len(), |i: int| history@[i]@),
                    forall|i: int| 0 <= i < count ==> msg_fits(#[trigger] hv[i]),
                    out@ == mid + enc_msgs(hv.subrange(0, j as int)),
                decreases count - j,
            {
                let m = &history[j];
                assert(m@ == hv[j as int]);
                push_str(&mut out, m.message.as_str());
                push_str(&mut out, m.sender.as_str());
                push_str(&mut out, m.timestamp.as_str());
                proof {
                    reveal(enc_msg);
                    lemma_enc_msgs_push(hv.subrange(0, j as int), hv[j as int]);
                    assert(hv.subrange(0, j as int).push(hv[j as int]) =~= hv.subrange(
                        0,
                        j as int + 1,
                    ));
                    assert(out@ =~= mid + enc_msgs(hv.subrange(0, j as int + 1)));
                }
                j = j + 1;
            }
            proof {
                assert(hv.subrange(0, count as int) =~= hv);
                assert(out@ =~= encode_spec(p@));
            }
            Option::Some(out)
        },
        Packet::Disconnect => {
            let mut out: Vec<u8> = Vec::new();
            out.push(11u8);
            assert(out@ =~= encode_spec(p@));
            Option::Some(out)
        },
        Packet::Error { should_disconnect, error } => {
            if !check_fits(error.as_str()) {
                return Option::None;
            }
            let mut out: Vec<u8> = Vec::new();
            out.push(12u8);
            assert(out@ =~= seq![12u8]);
            push_str(&mut out, error.as_str());
            push_bool(&mut out, *should_disconnect);
            assert(out@ =~= encode_spec(p@));
            Option::Some(out)
        },
    }
}

// ---------------------------------------------------------------------------
// Decoding, executable
// ---------------------------------------------------------------------------

/// Relies on String::from_utf8: it succeeds exactly on valid UTF-8 and the
/// resulting string's characters are the decoding of the given bytes.
#[verifier::external_body]
fn string_from_utf8(v: Vec<u8>) -> (r: Option<String>)
    ensures
        r is Some <==> valid_utf8(v@),
        r matches Some(st) ==> st@ == decode_utf8(v@),
{
    match String::from_utf8(v) {
        Ok(st) => Option::Some(st),
        Err(_) => Option::None,
    }
}

fn read_u32(bytes: &Vec<u8>, i: usize) -> (x: u32)
    requires
        i + 4 <= bytes@.len(),
    ensures
        x == dec_u32_at(bytes@, i as int),
{
    let l = bytes.len();
    let b0 = bytes[i] as u32;
    let b1 = bytes[i + 1] as u32;
    let b2 = bytes[i + 2] as u32;
    let b3 = bytes[i + 3] as u32;
    b0 + b1 * 0x100 + b2 * 0x10000 + b3 * 0x1000000
}

fn read_bool(bytes: &Vec<u8>, i: usize) -> (r: Option<(bool, usize)>)
    ensures
        match dec_bool(bytes@, i as int) {
            Option::Some((b, j)) => r matches Some((bb, jj)) && bb == b && jj as int == j && jj
                <= bytes@.len(),
            Option::None => r is None,
        },
{
    if i < bytes.len() {
        let v = bytes[i];
        if v == 0 {
            Option::Some((false, i + 1))
        } else if v == 1 {
            Option::Some((true, i + 1))
        } else {
            Option::None
        }
    } else {
        Option::None
    }
}

#[verifier::loop_isolation(false)]
fn read_str(bytes: &Vec<u8>, i: usize) -> (r: Option<(String, usize)>)
    ensures
        match dec_str(bytes@, i as int) {
            Option::Some((cs, j)) => r matches Some(p) && p.0@ == cs && p.1 as int == j && i < p.1
                && p.1 <= bytes@.len(),
            Option::None => r is None,
        },
{
    if bytes.len() < 4 || i > bytes.len() - 4 {
        return Option::None;
    }
    let n32 = read_u32(bytes, i);
    let start = i + 4;
    let n = n32 as usize;
    if n > bytes.len() - start {
        return Option::None;
    }
    let mut sub: Vec<u8> = Vec::new();
    let mut k: usize = 0;
    while k < n
        invariant
            k <= n,
            sub@ == bytes@.subrange(start as int, start as int + k as int),
        decreases n - k,
    {
        sub.push(bytes[start + k]);
        assert(sub@ =~= bytes@.subrange(start as int, start as int + k as int + 1));
        k = k + 1;
    }
    match string_from_utf8(sub) {
        Option::Some(st) => Option::Some((st, start + n)),
        Option::None => Option::None,
    }
}

fn read_msg(bytes: &Vec<u8>, i: usize) -> (r: Option<(SentMsg, usize)>)
    ensures
        match dec_msg(bytes@, i as int) {
            Option::Some((mv, j)) => r matches Some(p) && p.0@ == mv && p.1 as int == j && i < p.1
                && p.1 <= bytes@.len(),
            Option::None => r is None,
        },
{
    let r1 = read_str(bytes, i);
    match r1 {
        Option::Some((message, j)) => {
            let r2 = read_str(bytes, j);
            match r2 {
                Option::Some((sender, k)) => {
                    let r3 = read_str(bytes, k);
                    match r3 {
                        Option::Some((timestamp, l)) => Option::Some(
                            (SentMsg { message, sender, timestamp }, l),
                        ),
                        Option::None => Option::None,
                    }
                },
                Option::None => Option::None,
            }
        },
        Option::None => Option::None,
    }
}

proof fn lemma_dec_msgs_split(s: Seq<u8>, i: int, k: nat, m: nat)
    ensures
        dec_msgs(s, i, (k + m) as nat) == (match dec_msgs(s, i, k) {
            Option::Some((ms1, j)) => match dec_msgs(s, j, m) {
                Option::Some((ms2, l)) => Option::Some((ms1 + ms2, l)),
                Option::None => Option::None::<(Seq<SentMsgV>, int)>,
            },
            Option::None => Option::None,
        }),
    decreases k,
{
    if k == 0 {
        assert(dec_msgs(s, i, 0) == Option::Some((Seq::<SentMsgV>::empty(), i)));
        match dec_msgs(s, i, m) {
            Option::Some((ms2, l)) => {
                assert(Seq::<SentMsgV>::empty() + ms2 =~= ms2);
            },
            Option::None => {},
        }
    } else {
        match dec_msg(s, i) {
            Option::Some((m0, j0)) => {
                lemma_dec_msgs_split(s, j0, (k - 1) as nat, m);
                match dec_msgs(s, j0, (k - 1) as nat) {
                    Option::Some((ms1, j)) => {
                        match dec_msgs(s, j, m) {
                            Option::Some((ms2, l)) => {
                                vstd::seq_lib::lemma_concat_associative(seq![m0], ms1, ms2);
                            },
                            Option::None => {},
                        }
                    },
                    Option::None => {},
                }
            },
            Option::None => {},
        }
    }
}

/// Parse one frame. Returns the packet the frame holds; a malformed frame
/// yields an error, never a partial or corrupt packet.
#[verifier::loop_isolation(false)]
#[verifier::rlimit(100)]
pub fn decode_packet(bytes: &Vec<u8>) -> (r: Result<Packet, DecodeError>)
    ensures
        match decode_spec(bytes@) {
            Option::Some(pv) => r matches Ok(p) && p@ == pv,
            Option::None => r matches Err(e) && e == DecodeError::Malformed,
        },
{
    if bytes.len() == 0 {
        return Result::Err(DecodeError::Malformed);
    }
    let tag = bytes[0];
    if tag == 1 {
        match read_str(bytes, 1) {
            Option::Some((version, i)) => match read_bool(bytes, i) {
                Option::Some((disconnecting, j)) => {
                    if j == bytes.len() {
                        Result::Ok(Packet::Ping { version, disconnecting })
                    } else {
                        Result::Err(DecodeError::Malformed)
                    }
                },
                Option::None => Result::Err(DecodeError::Malformed),
            },
            Option::None => Result::Err(DecodeError::Malformed),
        }
    } else if tag == 2 {
        match read_bool(bytes, 1) {
            Option::Some((valid, i)) => match read_str(bytes, i) {
                Option::Some((accepted_version, j)) => {
                    if j == bytes.len() {
                        Result::Ok(Packet::PingResponse { valid, accepted_version })
                    } else {
                        Result::Err(DecodeError::Malformed)
                    }
                },
                Option::None => Result::Err(DecodeError::Malformed),
            },
            Option::None => Result::Err(DecodeError::Malformed),
        }
    } else if tag == 3 {
        match read_str(bytes, 1) {
            Option::Some((username, i)) => match read_str(bytes, i) {
                Option::Some((password, j)) => match read_bool(bytes, j) {
                    Option::Some((signup, k)) => {
                        if k == bytes.len() {
                            Result::Ok(Packet::LoginRequest { username, password, signup })
                        } else {
                            Result::Err(DecodeError::Malformed)
                        }
                    },
                    Option::None => Result::Err(DecodeError::Malformed),
                },
                Option::None => Result::Err(DecodeError::Malformed),
            },
            Option::None => Result::Err(DecodeError::Malformed),
        }
    } else if tag == 4 {
        match read_bool(bytes, 1) {
            Option::Some((valid, i)) => match read_bool(bytes, i) {
                Option::Some((present, j)) => {
                    if present {
                        match read_str(bytes, j) {
                            Option::Some((e, k)) => {
                                if k == bytes.len() {
                                    Result::Ok(
                                        Packet::LoginResponse {
                                            valid,
                                            error: Option::Some(e),
                                        },
                                    )
                                } else {
                                    Result::Err(DecodeError::Malformed)
                                }
                            },
                            Option::None => Result::Err(DecodeError::Malformed),
                        }
                    } else {
                        if j == bytes.len() {
                            Result::Ok(Packet::LoginResponse { valid, error: Option::None })
                        } else {
                            Result::Err(DecodeError::Malformed)
                        }
                    }
                },
                Option::None => Result::Err(DecodeError::Malformed),
            },
            Option::None => Result::Err(DecodeError::Malformed),
        }
    } else if tag == 5 {
        match read_str(bytes, 1) {
            Option::Some((message, i)) => match read_str(bytes, i) {
                Option::Some((sender, j)) => match read_str(bytes, j) {
                    Option::Some((recipient, k)) => match read_str(bytes, k) {
                        Option::Some((timestamp, l)) => {
                            if l == bytes.len() {
                                Result::Ok(
                                    Packet::Message { message, sender, recipient, timestamp },
                                )
                            } else {
                                Result::Err(DecodeError::Malformed)
                            }
                        },
                        Option::None => Result::Err(DecodeError::Malformed),
                    },
                    Option::None => Result::Err(DecodeError::Malformed),
                },
                Option::None => Result::Err(DecodeError::Malformed),
            },
            Option::None => Result::Err(DecodeError::Malformed),
        }
    } else if tag == 6 {
        match read_str(bytes, 1) {
            Option::Some((username, i)) => {
                if i == bytes.len() {
                    Result::Ok(Packet::UserExistsRequest { username })
                } else {
                    Result::Err(DecodeError::Malformed)
                }
            },
            Option::None => Result::Err(DecodeError::Malformed),
        }
    } else if tag == 7 {
        match read_str(bytes, 1) {
            Option::Some((username, i)) => {
                if i == bytes.len() {
                    Result::Ok(Packet::UserOnlineRequest { username })
                } else {
                    Result::Err(DecodeError::Malformed)
                }
            },
            Option::None => Result::Err(DecodeError::Malformed),
        }
    } else if tag == 8 {
        match read_bool(bytes, 1) {
            Option::Some((response, i)) => {
                if i == bytes.len() {
                    Result::Ok(Packet::UserResponse { response })
                } else {
                    Result::Err(DecodeError::Malformed)
                }
            },
            Option::None => Result::Err(DecodeError::Malformed),
        }
    } else if tag == 9 {
        match read_str(bytes, 1) {
            Option::Some((username, i)) => {
                if i == bytes.len() {
                    Result::Ok(Packet::MsgHistoryRequest { username })
                } else {
                    Result::Err(DecodeError::Malformed)
                }
            },
            Option::None => Result::Err(DecodeError::Malformed),
        }
    } else if tag == 10 {
        if bytes.len() < 5 {
            return Result::Err(DecodeError::Malformed);
        }
        let count32 = read_u32(bytes, 1);
        let count = count32 as usize;
        let ghost total = dec_u32_at(bytes@, 1) as nat;
        let mut items: Vec<SentMsg> = Vec::new();
        let mut idx: usize = 5;
        let mut k: usize = 0;
        while k < count
            invariant
                k <= count,
                idx <= bytes@.len(),
                items@.len() == k,
                dec_msgs(bytes@, 5, k as nat) == Option::Some(
                    (Seq::new(items@.len(), |q: int| items@[q]@), idx as int),
                ),
            decreases count - k,
        {
            let ghost prev = Seq::new(items@.len(), |q: int| items@[q]@);
            match read_msg(bytes, idx) {
                Option::Some((m, j)) => {
                    proof {
                        lemma_dec_msgs_split(bytes@, 5, k as nat, 1nat);
                        assert(dec_msgs(bytes@, j as int, 0) == Option::Some(
                            (Seq::<SentMsgV>::empty(), j as int),
                        ));
                        assert(seq![m@] + Seq::<SentMsgV>::empty() =~= seq![m@]);
                        assert(dec_msgs(bytes@, idx as int, 1nat) == Option::Some(
                            (seq![m@], j as int),
                        ));
                        assert(prev + seq![m@] =~= Seq::new(
                            items@.len() + 1,
                            |q: int|
                                if q < items@.len() {
                                    items@[q]@
                                } else {
                                    m@
                                },
                        ));
                    }
                    items.push(m);
                    idx = j;
                    proof {
                        assert(Seq::new(items@.len(), |q: int| items@[q]@) =~= prev + seq![m@]);
                    }
                },
                Option::None => {
                    proof {
                        lemma_dec_msgs_split(bytes@, 5, k as nat, (count - k) as nat);
                        assert(dec_msgs(bytes@, idx as int, (count - k) as nat) is None);
                        assert(dec_msgs(bytes@, 5, count as nat) is None);
                    }
                    return Result::Err(DecodeError::Malformed);
                },
            }
            k = k + 1;
        }
        if idx == bytes.len() {
            Result::Ok(Packet::MsgHistory { history: items })
        } else {
            Result::Err(DecodeError::Malformed)
        }
    } else if tag == 11 {
        if bytes.len() == 1 {
            Result::Ok(Packet::Disconnect)
        } else {
            Result::Err(DecodeError::Malformed)
        }
    } else if tag == 12 {
        match read_str(bytes, 1) {
            Option::Some((error, i)) => match read_bool(bytes, i) {
                Option::Some((should_disconnect, j)) => {
                    if j == bytes.len() {
                        Result::Ok(Packet::Error { should_disconnect, error })
                    } else {
                        Result::Err(DecodeError::Malformed)
                    }
                },
                Option::None => Result::Err(DecodeError::Malformed),
            },
            Option::None => Result::Err(DecodeError::Malformed),
        }
    } else {
        Result::Err(DecodeError::Malformed)
    }
}

/// The courtesy reply sent to the peer before a receive fails on
/// malformed data: an error that demands a disconnect.
pub fn invalid_data_reply() -> (p: Packet)
    ensures
        p@ == (PacketV::Error { should_disconnect: true, error: "Invalid data received!"@ }),
{
    Packet::Error { should_disconnect: true, error: String::from_str("Invalid data received!") }
}

/// Parse one frame against the packet kinds legal in the current protocol
/// state. A well-formed packet of an unexpected kind is an error, not a
/// crash and not a packet.
pub fn decode_expected(bytes: &Vec<u8>, expected: ExpectedPacket) -> (r: Result<
    Packet,
    DecodeError,
>)
    ensures
        match decode_spec(bytes@) {
            Option::Some(pv) => if accepts(expected, pv) {
                r matches Ok(p) && p@ == pv
            } else {
                r matches Err(e) && e == DecodeError::Unexpected
            },
            Option::None => r matches Err(e) && e == DecodeError::Malformed,
        },
{
    match decode_packet(bytes) {
        Result::Ok(p) => {
            if packet_accepted(expected, &p) {
                Result::Ok(p)
            } else {
                Result::Err(DecodeError::Unexpected)
            }
        },
        Result::Err(e) => Result::Err(e),
    }
}

// ---------------------------------------------------------------------------
// The codec is lossless: decoding an encoded packet gives it back
// ---------------------------------------------------------------------------

proof fn lemma_dec_u32_of_enc(s: Seq<u8>, i: int, x: u32)
    requires
        0 <= i,
        i + 4 <= s.len(),
        s.subrange(i, i + 4) == enc_u32(x),
    ensures
        dec_u32_at(s, i) == x,
{
    assert(s[i] == enc_u32(x)[0]);
    assert(s[i + 1] == enc_u32(x)[1]);
    assert(s[i + 2] == enc_u32(x)[2]);
    assert(s[i + 3] == enc_u32(x)[3]);
    lemma_u32_le_round_trip(x);
}

proof fn lemma_dec_bool_of_enc(s: Seq<u8>, i: int, b: bool)
    requires
        0 <= i,
        i + 1 <= s.len(),
        s.subrange(i, i + 1) == enc_bool(b),
    ensures
        dec_bool(s, i) == Option::Some((b, i + 1)),
{
    assert(s[i] == enc_bool(b)[0]);
}

proof fn lemma_dec_str_of_enc(s: Seq<u8>, i: int, cs: Seq<char>)
    requires
        str_fits(cs),
        0 <= i,
        i + enc_str(cs).len() as int <= s.len(),
        s.subrange(i, i + enc_str(cs).len() as int) == enc_str(cs),
    ensures
        enc_str(cs).len() == 4 + encode_utf8(cs).len(),
        dec_str(s, i) == Option::Some((cs, i + enc_str(cs).len() as int)),
{
    let u = encode_utf8(cs);
    let n = u.len() as int;
    let l = enc_str(cs);
    assert(l.len() == 4 + n);
    assert forall|q: int| 0 <= q < 4 implies #[trigger] s[i + q] == enc_u32(u.len() as u32)[q] by {
        assert(l[q] == enc_u32(u.len() as u32)[q]);
        assert(s.subrange(i, i + l.len() as int)[q] == s[i + q]);
    }
    assert(s.subrange(i, i + 4) =~= enc_u32(u.len() as u32));
    lemma_dec_u32_of_enc(s, i, u.len() as u32);
    assert(dec_u32_at(s, i) as int == n);
    assert forall|q: int| 0 <= q < n implies #[trigger] s[i + 4 + q] == u[q] by {
        assert(l[4 + q] == u[q]);
        assert(s.subrange(i, i + l.len() as int)[4 + q] == s[i + 4 + q]);
    }
    assert(s.subrange(i + 4, i + 4 + n) =~= u) by {
        assert forall|q: int| 0 <= q < n implies s.subrange(i + 4, i + 4 + n)[q] == u[q] by {
            assert(s.subrange(i + 4, i + 4 + n)[q] == s[i + 4 + q]);
            assert(l[4 + q] == u[q]);
            assert(s.subrange(i, i + l.len() as int)[4 + q] == s[i + 4 + q]);
        }
    }
    encode_utf8_valid_utf8(cs);
    encode_utf8_decode_utf8(cs);
}

proof fn lemma_dec_msg_of_enc(s: Seq<u8>, i: int, m: SentMsgV)
    requires
        msg_fits(m),
        0 <= i,
        i + enc_msg(m).len() as int <= s.len(),
        s.subrange(i, i + enc_msg(m).len() as int) == enc_msg(m),
    ensures
        dec_msg(s, i) == Option::Some((m, i + enc_msg(m).len() as int)),
{
    reveal(enc_msg);
    let e = enc_msg(m);
    let e1 = enc_str(m.message);
    let e2 = enc_str(m.sender);
    let e3 = enc_str(m.timestamp);
    assert forall|q: int| 0 <= q < e.len() implies #[trigger] s[i + q] == e[q] by {
        assert(s.subrange(i, i + e.len() as int)[q] == s[i + q]);
    }
    assert(s.subrange(i, i + e1.len() as int) =~= e1);
    lemma_dec_str_of_enc(s, i, m.message);
    let i2 = i + e1.len() as int;
    assert(s.subrange(i2, i2 + e2.len() as int) =~= e2) by {
        assert forall|q: int| 0 <= q < e2.len() implies s.subrange(i2, i2 + e2.len() as int)[q]
            == e2[q] by {
            assert(s.subrange(i2, i2 + e2.len() as int)[q] == s[i2 + q]);
            assert(e[e1.len() + q] == e2[q]);
            assert(s.subrange(i, i + e.len() as int)[e1.len() + q] == s[i2 + q]);
        }
    }
    lemma_dec_str_of_enc(s, i2, m.sender);
    let i3 = i2 + e2.len() as int;
    assert(s.subrange(i3, i3 + e3.len() as int) =~= e3) by {
        assert forall|q: int| 0 <= q < e3.len() implies s.subrange(i3, i3 + e3.len() as int)[q]
            == e3[q] by {
            assert(s.subrange(i3, i3 + e3.len() as int)[q] == s[i3 + q]);
            assert(e[e1.len() + e2.len() + q] == e3[q]);
            assert(s.subrange(i, i + e.len() as int)[e1.len() + e2.len() + q] == s[i3 + q]);
        }
    }
    lemma_dec_str_of_enc(s, i3, m.timestamp);
}

proof fn lemma_dec_msgs_of_enc(s: Seq<u8>, i: int, h: Seq<SentMsgV>)
    requires
        forall|k: int| 0 <= k < h.len() ==> msg_fits(#[trigger] h[k]),
        0 <= i,
        i + enc_msgs(h).len() as int <= s.len(),
        s.subrange(i, i + enc_msgs(h).len() as int) == enc_msgs(h),
    ensures
        dec_msgs(s, i, h.len()) == Option::Some((h, i + enc_msgs(h).len() as int)),
    decreases h.len(),
{
    if h.len() == 0 {
        assert(dec_msgs(s, i, 0) == Option::Some((Seq::<SentMsgV>::empty(), i)));
        assert(h =~= Seq::<SentMsgV>::empty());
    } else {
        let w = enc_msgs(h);
        let e0 = enc_msg(h[0]);
        let rest = enc_msgs(h.drop_first());
        assert(w == e0 + rest);
        assert forall|q: int| 0 <= q < w.len() implies #[trigger] s[i + q] == w[q] by {
            assert(s.subrange(i, i + w.len() as int)[q] == s[i + q]);
        }
        assert(s.subrange(i, i + e0.len() as int) =~= e0);
        lemma_dec_msg_of_enc(s, i, h[0]);
        let i2 = i + e0.len() as int;
        assert(s.subrange(i2, i2 + rest.len() as int) =~= rest) by {
            assert forall|q: int| 0 <= q < rest.len() implies s.subrange(
                i2,
                i2 + rest.len() as int,
            )[q] == rest[q] by {
                assert(s.subrange(i2, i2 + rest.len() as int)[q] == s[i2 + q]);
                assert(w[e0.len() + q] == rest[q]);
                assert(s.subrange(i, i + w.len() as int)[e0.len() + q] == s[i2 + q]);
            }
        }
        lemma_dec_msgs_of_enc(s, i2, h.drop_first());
        assert(dec_msgs(s, i2, h.drop_first().len()) == Option::Some(
            (h.drop_first(), i2 + rest.len() as int),
        ));
        assert(h.len() == h.drop_first().len() + 1);
        assert(seq![h[0]] + h.drop_first() =~= h);
    }
}

/// The codec is lossless: a packet whose fields fit their length prefixes
/// decodes, from its own frame, back to itself.
#[verifier::rlimit(100)]
pub proof fn lemma_codec_round_trip(p: PacketV)
    requires
        encodable(p),
    ensures
        decode_spec(encode_spec(p)) == Option::Some(p),
{
    let s = encode_spec(p);
    match p {
        PacketV::Ping { version, disconnecting } => {
            let e1 = enc_str(version);
            assert(s.subrange(1, 1 + e1.len() as int) =~= e1);
            lemma_dec_str_of_enc(s, 1, version);
            let i2 = 1 + e1.len() as int;
            assert(s.subrange(i2, i2 + 1) =~= enc_bool(disconnecting));
            lemma_dec_bool_of_enc(s, i2, disconnecting);
            assert(s[0] == 1);
        },
        PacketV::PingResponse { valid, accepted_version } => {
            let e2 = enc_str(accepted_version);
            assert(s.subrange(1, 2) =~= enc_bool(valid));
            lemma_dec_bool_of_enc(s, 1, valid);
            assert(s.subrange(2, 2 + e2.len() as int) =~= e2);
            lemma_dec_str_of_enc(s, 2, accepted_version);
            assert(s[0] == 2);
        },
        PacketV::LoginRequest { username, password, signup } => {
            let e1 = enc_str(username);
            let e2 = enc_str(password);
            assert(s.subrange(1, 1 + e1.len() as int) =~= e1);
            lemma_dec_str_of_enc(s, 1, username);
            let i2 = 1 + e1.len() as int;
            assert(s.subrange(i2, i2 + e2.len() as int as int) =~= e2);
            lemma_dec_str_of_enc(s, i2, password);
            let i3 = i2 + e2.len() as int as int;
            assert(s.subrange(i3, i3 + 1) =~= enc_bool(signup));
            lemma_dec_bool_of_enc(s, i3, signup);
            assert(s[0] == 3);
        },
        PacketV::LoginResponse { valid, error } => {
            assert(s.subrange(1, 2) =~= enc_bool(valid));
            lemma_dec_bool_of_enc(s, 1, valid);
            match error {
                Option::Some(e) => {
                    let ee = enc_str(e);
                    assert(s.subrange(2, 3) =~= enc_bool(true));
                    lemma_dec_bool_of_enc(s, 2, true);
                    assert(s.subrange(3, 3 + ee.len() as int) =~= ee);
                    lemma_dec_str_of_enc(s, 3, e);
                },
                Option::None => {
                    assert(s.subrange(2, 3) =~= enc_bool(false));
                    lemma_dec_bool_of_enc(s, 2, false);
                },
            }
            assert(s[0] == 4);
        },
        PacketV::Message { message, sender, recipient, timestamp } => {
            let e1 = enc_str(message);
            let e2 = enc_str(sender);
            let e3 = enc_str(recipient);
            let e4 = enc_str(timestamp);
            assert(s.subrange(1, 1 + e1.len() as int) =~= e1);
            lemma_dec_str_of_enc(s, 1, message);
            let i2 = 1 + e1.len() as int;
            assert(s.subrange(i2, i2 + e2.len() as int as int) =~= e2);
            lemma_dec_str_of_enc(s, i2, sender);
            let i3 = i2 + e2.len() as int as int;
            assert(s.subrange(i3, i3 + e3.len() as int) =~= e3);
            lemma_dec_str_of_enc(s, i3, recipient);
            let i4 = i3 + e3.len() as int;
            assert(s.subrange(i4, i4 + e4.len() as int) =~= e4);
            lemma_dec_str_of_enc(s, i4, timestamp);
            assert(s[0] == 5);
        },
        PacketV::UserExistsRequest { username } => {
            let e1 = enc_str(username);
            assert(s.subrange(1, 1 + e1.len() as int) =~= e1);
            lemma_dec_str_of_enc(s, 1, username);
            assert(s[0] == 6);
        },
        PacketV::UserOnlineRequest { username } => {
            let e1 = enc_str(username);
            assert(s.subrange(1, 1 + e1.len() as int) =~= e1);
            lemma_dec_str_of_enc(s, 1, username);
            assert(s[0] == 7);
        },
        PacketV::UserResponse { response } => {
            assert(s.subrange(1, 2) =~= enc_bool(response));
            lemma_dec_bool_of_enc(s, 1, response);
            assert(s[0] == 8);
        },
        PacketV::MsgHistoryRequest { username } => {
            let e1 = enc_str(username);
            assert(s.subrange(1, 1 + e1.len() as int) =~= e1);
            lemma_dec_str_of_enc(s, 1, username);
            assert(s[0] == 9);
        },
        PacketV::MsgHistory { history } => {
            let n32 = history.len() as u32;
            assert(s.subrange(1, 5) =~= enc_u32(n32));
            lemma_dec_u32_of_enc(s, 1, n32);
            assert(dec_u32_at(s, 1) as nat == history.len());
            let body = enc_msgs(history);
            assert(s.subrange(5, 5 + body.len() as int) =~= body);
            lemma_dec_msgs_of_enc(s, 5, history);
            assert(s[0] == 10);
        },
        PacketV::Disconnect => {
            assert(s[0] == 11);
            assert(s.len() == 1);
        },
        PacketV::Error { should_disconnect, error } => {
            let e1 = enc_str(error);
            assert(s.subrange(1, 1 + e1.len() as int) =~= e1);
            lemma_dec_str_of_enc(s, 1, error);
            let i2 = 1 + e1.len() as int;
            assert(s.subrange(i2, i2 + 1) =~= enc_bool(should_disconnect));
            lemma_dec_bool_of_enc(s, i2, should_disconnect);
            assert(s[0] == 12);
        },
    }
}

// ---------------------------------------------------------------------------
// The codec accepts nothing but real frames: whatever decodes, re-encodes
// to the very bytes it was decoded from
// ---------------------------------------------------------------------------

proof fn lemma_subrange_chain(s: Seq<u8>, a: int, b: int, c: int)
    requires
        0 <= a <= b <= c <= s.len(),
    ensures
        s.subrange(a, c) == s.subrange(a, b) + s.subrange(b, c),
{
    assert(s.subrange(a, c) =~= s.subrange(a, b) + s.subrange(b, c));
}

proof fn lemma_sound_bool(s: Seq<u8>, i: int)
    ensures
        dec_bool(s, i) matches Some(r) ==> r.1 == i + 1 && i + 1 <= s.len() && s.subrange(
            i,
            i + 1,
        ) == enc_bool(r.0),
{
    if dec_bool(s, i) is Some {
        let b = s[i] == 1;
        assert(s.subrange(i, i + 1) =~= enc_bool(b));
    }
}

proof fn lemma_sound_str(s: Seq<u8>, i: int)
    requires
        0 <= i,
    ensures
        dec_str(s, i) matches Some(r) ==> i + 4 <= r.1 <= s.len() && str_fits(r.0) && s.subrange(
            i,
            r.1,
        ) == enc_str(r.0),
{
    if dec_str(s, i) is Some {
        let n = dec_u32_at(s, i) as int;
        let sub = s.subrange(i + 4, i + 4 + n);
        let cs = decode_utf8(sub);
        decode_utf8_encode_utf8(sub);
        assert(encode_utf8(cs) == sub);
        assert(encode_utf8(cs).len() == n);
        lemma_u32_le_bytes(s, i);
        assert(enc_u32(encode_utf8(cs).len() as u32) == s.subrange(i, i + 4));
        lemma_subrange_chain(s, i, i + 4, i + 4 + n);
        assert(s.subrange(i, i + 4 + n) == enc_str(cs));
    }
}

proof fn lemma_sound_msg(s: Seq<u8>, i: int)
    requires
        0 <= i,
    ensures
        dec_msg(s, i) matches Some(r) ==> i <= r.1 <= s.len() && msg_fits(r.0) && s.subrange(
            i,
            r.1,
        ) == enc_msg(r.0),
{
    reveal(enc_msg);
    if dec_msg(s, i) is Some {
        lemma_sound_str(s, i);
        let (m1, j1) = dec_str(s, i)->Some_0;
        lemma_sound_str(s, j1);
        let (m2, j2) = dec_str(s, j1)->Some_0;
        lemma_sound_str(s, j2);
        let (m3, j3) = dec_str(s, j2)->Some_0;
        lemma_subrange_chain(s, j1, j2, j3);
        lemma_subrange_chain(s, i, j1, j3);
        assert(s.subrange(i, j3) == enc_str(m1) + (enc_str(m2) + enc_str(m3)));
        vstd::seq_lib::lemma_concat_associative(enc_str(m1), enc_str(m2), enc_str(m3));
    }
}

proof fn lemma_sound_msgs(s: Seq<u8>, i: int, k: nat)
    requires
        0 <= i <= s.len(),
    ensures
        dec_msgs(s, i, k) matches Some(r) ==> {
            &&& i <= r.1 <= s.len()
            &&& r.0.len() == k
            &&& (forall|q: int| 0 <= q < r.0.len() ==> msg_fits(#[trigger] r.0[q]))
            &&& s.subrange(i, r.1) == enc_msgs(r.0)
        },
    decreases k,
{
    if dec_msgs(s, i, k) is Some {
        if k == 0 {
            assert(s.subrange(i, i) =~= Seq::<u8>::empty());
            assert(enc_msgs(Seq::<SentMsgV>::empty()) == Seq::<u8>::empty());
        } else {
            lemma_sound_msg(s, i);
            let (m, j0) = dec_msg(s, i)->Some_0;
            lemma_sound_msgs(s, j0, (k - 1) as nat);
            let (ms, j) = dec_msgs(s, j0, (k - 1) as nat)->Some_0;
            let whole = seq![m] + ms;
            assert(whole[0] == m);
            assert(whole.drop_first() =~= ms);
            assert(enc_msgs(whole) == enc_msg(m) + enc_msgs(ms));
            lemma_subrange_chain(s, i, j0, j);
            assert forall|q: int| 0 <= q < whole.len() implies msg_fits(#[trigger] whole[q]) by {
                if q > 0 {
                    assert(whole[q] == ms[q - 1]);
                }
            }
        }
    }
}

#[verifier::rlimit(100)]
proof fn lemma_codec_sound_login_request(s: Seq<u8>)
    requires
        s.len() > 0,
        s[0] == 3u8,
        decode_spec(s) is Some,
    ensures
        decode_spec(s) matches Some(p) ==> encodable(p) && encode_spec(p) == s,
{
    let tag = s[0];
    assert(seq![tag] =~= s.subrange(0, 1));
    {
            lemma_sound_str(s, 1);
            let (username, i) = dec_str(s, 1)->Some_0;
            lemma_sound_str(s, i);
            let (password, j) = dec_str(s, i)->Some_0;
            lemma_sound_bool(s, j);
            lemma_subrange_chain(s, i, j, j + 1);
            lemma_subrange_chain(s, 1, i, j + 1);
            lemma_subrange_chain(s, 0, 1, j + 1);
            assert(s.subrange(0, s.len() as int) =~= s);
            let a = seq![3u8];
            let b = enc_str(username);
            let c = enc_str(password);
            let d = enc_bool(s[j] == 1);
            vstd::seq_lib::lemma_concat_associative(c, d, Seq::empty());
            assert(s == a + (b + (c + d)));
            vstd::seq_lib::lemma_concat_associative(b, c, d);
            vstd::seq_lib::lemma_concat_associative(a, b + c, d);
            vstd::seq_lib::lemma_concat_associative(a, b, c);
            assert(s == ((a + b) + c) + d);
    }
}

#[verifier::rlimit(100)]
proof fn lemma_codec_sound_login_response(s: Seq<u8>)
    requires
        s.len() > 0,
        s[0] == 4u8,
        decode_spec(s) is Some,
    ensures
        decode_spec(s) matches Some(p) ==> encodable(p) && encode_spec(p) == s,
{
    let tag = s[0];
    assert(seq![tag] =~= s.subrange(0, 1));
    {
            lemma_sound_bool(s, 1);
            match dec_opt_str(s, 2) {
                Option::Some((error, j)) => {
                    lemma_sound_bool(s, 2);
                    match error {
                        Option::Some(e) => {
                            lemma_sound_str(s, 3);
                            lemma_subrange_chain(s, 2, 3, j);
                            lemma_subrange_chain(s, 1, 2, j);
                            lemma_subrange_chain(s, 0, 1, j);
                            assert(s.subrange(0, s.len() as int) =~= s);
                            let a = seq![4u8];
                            let b = enc_bool(s[1] == 1);
                            let c = seq![1u8];
                            let d = enc_str(e);
                            assert(enc_opt_str(Option::Some(e)) == c + d);
                            assert(s == a + (b + (c + d)));
                            vstd::seq_lib::lemma_concat_associative(a, b, c + d);
                            assert(s == (a + b) + (c + d));
                        },
                        Option::None => {
                            lemma_subrange_chain(s, 1, 2, 3);
                            lemma_subrange_chain(s, 0, 1, 3);
                            assert(s.subrange(0, s.len() as int) =~= s);
                            assert(s.subrange(2, 3) =~= seq![0u8]);
                            let a = seq![4u8];
                            let b = enc_bool(s[1] == 1);
                            assert(s == a + (b + seq![0u8]));
                            vstd::seq_lib::lemma_concat_associative(a, b, seq![0u8]);
                        },
                    }
                },
                Option::None => {},
            }
    }
}

#[verifier::rlimit(100)]
proof fn lemma_codec_sound_message(s: Seq<u8>)
    requires
        s.len() > 0,
        s[0] == 5u8,
        decode_spec(s) is Some,
    ensures
        decode_spec(s) matches Some(p) ==> encodable(p) && encode_spec(p) == s,
{
    let tag = s[0];
    assert(seq![tag] =~= s.subrange(0, 1));
    {
            lemma_sound_str(s, 1);
            let (message, i) = dec_str(s, 1)->Some_0;
            lemma_sound_str(s, i);
            let (sender, j) = dec_str(s, i)->Some_0;
            lemma_sound_str(s, j);
            let (recipient, k) = dec_str(s, j)->Some_0;
            lemma_sound_str(s, k);
            let (timestamp, l) = dec_str(s, k)->Some_0;
            lemma_subrange_chain(s, j, k, l);
            lemma_subrange_chain(s, i, j, l);
            lemma_subrange_chain(s, 1, i, l);
            lemma_subrange_chain(s, 0, 1, l);
            assert(s.subrange(0, s.len() as int) =~= s);
            let a = seq![5u8];
            let b = enc_str(message);
            let c = enc_str(sender);
            let d = enc_str(recipient);
            let e = enc_str(timestamp);
            assert(s == a + (b + (c + (d + e))));
            vstd::seq_lib::lemma_concat_associative(c, d, e);
            vstd::seq_lib::lemma_concat_associative(b, c + d, e);
            vstd::seq_lib::lemma_concat_associative(b, c, d);
            vstd::seq_lib::lemma_concat_associative(a, (b + c) + d, e);
            vstd::seq_lib::lemma_concat_associative(a, b + c, d);
            vstd::seq_lib::lemma_concat_associative(a, b, c);
            assert(s == (((a + b) + c) + d) + e);
    }
}

#[verifier::rlimit(100)]
proof fn lemma_codec_sound_history(s: Seq<u8>)
    requires
        s.len() > 0,
        s[0] == 10u8,
        decode_spec(s) is Some,
    ensures
        decode_spec(s) matches Some(p) ==> encodable(p) && encode_spec(p) == s,
{
    let tag = s[0];
    assert(seq![tag] =~= s.subrange(0, 1));
    {
            let n = dec_u32_at(s, 1) as nat;
            lemma_sound_msgs(s, 5, n);
            let (history, i) = dec_msgs(s, 5, n)->Some_0;
            lemma_u32_le_bytes(s, 1);
            assert(history.len() as u32 == dec_u32_at(s, 1));
            assert(enc_u32(history.len() as u32) == s.subrange(1, 5));
            lemma_subrange_chain(s, 1, 5, i);
            lemma_subrange_chain(s, 0, 1, i);
            assert(s.subrange(0, s.len() as int) =~= s);
            let a = seq![10u8];
            let b = enc_u32(history.len() as u32);
            let c = enc_msgs(history);
            assert(s == a + (b + c));
            vstd::seq_lib::lemma_concat_associative(a, b, c);
    }
}

/// The codec accepts nothing but real frames: a frame that decodes to a
/// packet is exactly that packet's encoding, so no malformed or
/// truncated frame ever yields a packet.
#[verifier::rlimit(100)]
pub proof fn lemma_codec_sound(s: Seq<u8>)
    ensures
        decode_spec(s) matches Some(p) ==> encodable(p) && encode_spec(p) == s,
{
    if decode_spec(s) is Some {
        let tag = s[0];
        assert(seq![tag] =~= s.subrange(0, 1));
        if tag == 1 {
            lemma_sound_str(s, 1);
            let (version, i) = dec_str(s, 1)->Some_0;
            lemma_sound_bool(s, i);
            lemma_subrange_chain(s, 1, i, i + 1);
            lemma_subrange_chain(s, 0, 1, i + 1);
            assert(s.subrange(0, s.len() as int) =~= s);
            let p = decode_spec(s)->Some_0;
            assert(encode_spec(p) == (seq![1u8] + enc_str(version)) + enc_bool(
                s[i] == 1,
            )) by {
                vstd::seq_lib::lemma_concat_associative(
                    seq![1u8],
                    enc_str(version),
                    enc_bool(s[i] == 1),
                );
            }
        } else if tag == 2 {
            lemma_sound_bool(s, 1);
            lemma_sound_str(s, 2);
            let (accepted_version, j) = dec_str(s, 2)->Some_0;
            lemma_subrange_chain(s, 1, 2, j);
            lemma_subrange_chain(s, 0, 1, j);
            assert(s.subrange(0, s.len() as int) =~= s);
            vstd::seq_lib::lemma_concat_associative(
                seq![2u8],
                enc_bool(s[1] == 1),
                enc_str(accepted_version),
            );
        } else if tag == 3 {
            lemma_codec_sound_login_request(s);
        } else if tag == 4 {
            lemma_codec_sound_login_response(s);
        } else if tag == 5 {
            lemma_codec_sound_message(s);
        } else if tag == 6 || tag == 7 || tag == 9 {
            lemma_sound_str(s, 1);
            let (username, i) = dec_str(s, 1)->Some_0;
            lemma_subrange_chain(s, 0, 1, i);
            assert(s.subrange(0, s.len() as int) =~= s);
        } else if tag == 8 {
            lemma_sound_bool(s, 1);
            lemma_subrange_chain(s, 0, 1, 2);
            assert(s.subrange(0, s.len() as int) =~= s);
        } else if tag == 10 {
            lemma_codec_sound_history(s);
        } else if tag == 11 {
            assert(s =~= seq![11u8]);
        } else if tag == 12 {
            lemma_sound_str(s, 1);
            let (error, i) = dec_str(s, 1)->Some_0;
            lemma_sound_bool(s, i);
            lemma_subrange_chain(s, 1, i, i + 1);
            lemma_subrange_chain(s, 0, 1, i + 1);
            assert(s.subrange(0, s.len() as int) =~= s);
            let a = seq![12u8];
            let b = enc_str(error);
            let c = enc_bool(s[i] == 1);
            assert(s == a + (b + c));
            vstd::seq_lib::lemma_concat_associative(a, b, c);
        }
    }
}

} // verus!
