//! The store-and-forward relay: the decision step of each of the two
//! workers that share one authenticated session. The inbound step
//! persists client-sent messages; the outbound step hands queued
//! messages out and deletes one only after its send has been confirmed.
//! Both observe the global and the session-local termination flags and
//! wind down within one iteration once either is raised.

use vstd::prelude::*;
use crate::packet::{Packet, PacketV};
use crate::repo::{Repository, DBMessageQuery, MsgV, wf, has_msg_id, has_username,
    next_for, msg_index_of, insert_msg, get_id_from_username, get_next_msg, delete_msg};
use crate::session::{Session, SessionPhase, session_wf};

verus! {

/// What the transport handed the inbound worker this iteration.
pub enum PollEvent {
    /// Nothing was buffered.
    Nothing,
    /// One packet arrived and decoded against the active-relay kinds.
    Received(Packet),
    /// The transport failed or handed undecodable bytes.
    Failed,
}

/// What a relay step asks the caller to do next.
pub struct StepResult {
    /// A packet to send to the client, if any.
    pub reply: Option<Packet>,
    /// Whether this worker's loop is over.
    pub stop: bool,
}

/// The packets the inbound worker acts on during active relay.
pub open spec fn inbound_event_wf(e: PollEvent) -> bool {
    e matches PollEvent::Received(p) ==> (p@ is Message || p@ is Disconnect || p@ is Error)
}

/// What the inbound worker decided before touching any store: pass this
/// iteration, persist a message, or stop.
pub enum InboundClass {
    /// Nothing to do this iteration.
    Pass,
    /// Persist this message body for this recipient.
    Persist { message: String, recipient: String },
    /// The loop is over; send the reply if one is given, and raise the
    /// session-local flag if asked.
    Stop { reply: Option<Packet>, set_local: bool },
}

/// Classify one inbound iteration from the flags and the transport's
/// event alone: the store-free half of the inbound step, for a caller
/// that holds its own store. A raised flag stops the worker with a
/// parting disconnect; a message asks to be persisted; a client
/// disconnect or fatal error, and any transport failure, stops the
/// worker and raises the session-local flag.
pub fn inbound_classify(
    global_terminate: bool,
    local_terminate: bool,
    event: PollEvent,
) -> (r: InboundClass)
    requires
        inbound_event_wf(event),
    ensures
        global_terminate || local_terminate ==> (r matches InboundClass::Stop {
            reply,
            set_local,
        } && (reply matches Some(p) && p@ is Disconnect) && !set_local),
        !global_terminate && !local_terminate ==> match event {
            PollEvent::Nothing => r is Pass,
            PollEvent::Received(p) => match p@ {
                PacketV::Message { message, recipient, .. } => r matches InboundClass::Persist {
                    message: m,
                    recipient: t,
                } && m@ == message && t@ == recipient,
                PacketV::Disconnect => r matches InboundClass::Stop { reply, set_local } && reply
                    is None && set_local,
                PacketV::Error { should_disconnect, .. } => {
                    if should_disconnect {
                        r matches InboundClass::Stop { reply, set_local } && reply is None
                            && set_local
                    } else {
                        r is Pass
                    }
                },
                _ => true,
            },
            PollEvent::Failed => r matches InboundClass::Stop { reply, set_local } && (
            reply matches Some(p) && p@ == (PacketV::Error {
                should_disconnect: true,
                error: "Invalid data received."@,
            })) && set_local,
        },
{
    if global_terminate || local_terminate {
        return InboundClass::Stop {
            reply: Option::Some(Packet::Disconnect),
            set_local: false,
        };
    }
    match event {
        PollEvent::Nothing => InboundClass::Pass,
        PollEvent::Received(p) => match p {
            Packet::Message { message, recipient, .. } => InboundClass::Persist {
                message,
                recipient,
            },
            Packet::Disconnect => InboundClass::Stop { reply: Option::None, set_local: true },
            Packet::Error { should_disconnect, .. } => {
                if should_disconnect {
                    InboundClass::Stop { reply: Option::None, set_local: true }
                } else {
                    InboundClass::Pass
                }
            },
            _ => {
                proof {
                    assert(false);
                }
                vstd::pervasive::unreached()
            },
        },
        PollEvent::Failed => InboundClass::Stop {
            reply: Option::Some(
                Packet::Error {
                    should_disconnect: true,
                    error: String::from_str("Invalid data received."),
                },
            ),
            set_local: true,
        },
    }
}

/// The reply owed to the client after a persist attempt: an unresolved
/// recipient and a refused insert are each reported without ending the
/// session; a persisted message needs no reply.
pub fn persist_reply(recipient_resolved: bool, inserted: bool) -> (r: Option<Packet>)
    ensures
        !recipient_resolved ==> (r matches Some(p) && p@ == (PacketV::Error {
            should_disconnect: false,
            error: "Invalid recipient"@,
        })),
        recipient_resolved && !inserted ==> (r matches Some(p) && p@ == (PacketV::Error {
            should_disconnect: false,
            error: "Database error"@,
        })),
        recipient_resolved && inserted ==> r is None,
{
    if !recipient_resolved {
        Option::Some(
            Packet::Error {
                should_disconnect: false,
                error: String::from_str("Invalid recipient"),
            },
        )
    } else if !inserted {
        Option::Some(
            Packet::Error {
                should_disconnect: false,
                error: String::from_str("Database error"),
            },
        )
    } else {
        Option::None
    }
}

/// One iteration of the inbound worker: act on what the transport handed
/// us. A raised termination flag ends the loop with a parting disconnect
/// before anything else is considered. A message from the client is
/// persisted for its recipient under a fresh identifier; an unknown
/// recipient or a full store is reported to the client without ending
/// the session. A client disconnect or fatal error, and any transport
/// failure, ends the loop and raises the session-local flag.
pub fn inbound_step(
    session: &mut Session,
    repo: &mut Repository,
    global_terminate: bool,
    event: PollEvent,
    now: String,
) -> (r: StepResult)
    requires
        old(session).phase == SessionPhase::Active,
        session_wf(*old(session)),
        wf(old(repo)@),
        inbound_event_wf(event),
    ensures
        wf(final(repo)@),
        session_wf(*final(session)),
        final(session).phase == SessionPhase::Active,
        final(session).user_id == old(session).user_id,
        // a raised flag stops the worker within this iteration, with a
        // parting disconnect and nothing else done
        global_terminate || old(session).local_terminate ==> r.stop && (r.reply matches Some(p)
            && p@ is Disconnect) && final(repo)@ == old(repo)@
            && *final(session) == *old(session),
        !global_terminate && !old(session).local_terminate ==> match event {
            PollEvent::Nothing => !r.stop && r.reply is None && final(repo)@ == old(repo)@
                && *final(session) == *old(session),
            PollEvent::Received(p) => match p@ {
                PacketV::Message { message, recipient, .. } => {
                    if !has_username(old(repo)@.users, recipient) {
                        !r.stop && (r.reply matches Some(q) && q@ == (PacketV::Error {
                            should_disconnect: false,
                            error: "Invalid recipient"@,
                        })) && final(repo)@ == old(repo)@ && *final(session) == *old(session)
                    } else if old(repo)@.next_msg_id == u64::MAX {
                        !r.stop && (r.reply matches Some(q) && q@ == (PacketV::Error {
                            should_disconnect: false,
                            error: "Database error"@,
                        })) && final(repo)@ == old(repo)@ && *final(session) == *old(session)
                    } else {
                        &&& !r.stop
                        &&& r.reply is None
                        &&& *final(session) == *old(session)
                        &&& final(repo)@.users == old(repo)@.users
                        &&& exists|i: int|
                            0 <= i < old(repo)@.users.len()
                                && #[trigger] old(repo)@.users[i].username == recipient
                                && final(repo)@.queue == old(repo)@.queue.push(
                                (MsgV {
                                    id: old(repo)@.next_msg_id,
                                    sender: old(session).user_id->0,
                                    recipient: old(repo)@.users[i].id,
                                    message,
                                    timestamp: now@,
                                }),
                            )
                    }
                },
                PacketV::Disconnect => r.stop && r.reply is None
                    && final(session).local_terminate && final(repo)@ == old(repo)@,
                PacketV::Error { should_disconnect, .. } => {
                    if should_disconnect {
                        r.stop && r.reply is None && final(session).local_terminate
                            && final(repo)@ == old(repo)@
                    } else {
                        !r.stop && r.reply is None && final(repo)@ == old(repo)@
                            && *final(session) == *old(session)
                    }
                },
                _ => true,
            },
            PollEvent::Failed => r.stop && (r.reply matches Some(q) && q@ == (PacketV::Error {
                should_disconnect: true,
                error: "Invalid data received."@,
            })) && final(session).local_terminate && final(repo)@ == old(repo)@,
        },
{
    let class = inbound_classify(global_terminate, session.local_terminate, event);
    match class {
        InboundClass::Pass => StepResult { reply: Option::None, stop: false },
        InboundClass::Persist { message, recipient } => {
            match get_id_from_username(repo, recipient) {
                Result::Err(_) => StepResult { reply: persist_reply(false, false), stop: false },
                Result::Ok(recipient_id) => {
                    let sender_id = match session.user_id {
                        Option::Some(id) => id,
                        Option::None => {
                            proof {
                                assert(false);
                            }
                            vstd::pervasive::unreached()
                        },
                    };
                    let inserted = match insert_msg(repo, sender_id, recipient_id, message, now) {
                        Result::Ok(_) => true,
                        Result::Err(_) => false,
                    };
                    StepResult { reply: persist_reply(true, inserted), stop: false }
                },
            }
        },
        InboundClass::Stop { reply, set_local } => {
            if set_local {
                session.local_terminate = true;
            }
            StepResult { reply, stop: true }
        },
    }
}

/// What the outbound worker should do this iteration.
pub enum OutboundStep {
    /// A raised flag: send a parting disconnect and exit.
    Exit(Packet),
    /// Nothing deliverable right now; poll again later.
    Idle,
    /// Send this message to the client, then confirm the outcome.
    Deliver(Packet, u64),
}

/// One iteration of the outbound worker, up to the send: a raised flag
/// ends the loop with a parting disconnect; otherwise the oldest queued
/// message for this session's user, if any, is turned into a message
/// packet addressed to the session itself, tagged with the queue entry's
/// identifier for the later confirmation. The store is never changed
/// here.
pub fn outbound_step(
    session: &Session,
    repo: &Repository,
    global_terminate: bool,
) -> (r: OutboundStep)
    requires
        session.phase == SessionPhase::Active,
        session_wf(*session),
    ensures
        global_terminate || session.local_terminate ==> (r matches OutboundStep::Exit(p) && p@
            is Disconnect),
        !global_terminate && !session.local_terminate ==> match next_for(
            repo@.queue,
            session.user_id->0,
        ) {
            Option::Some(m) => {
                if exists|i: int|
                    0 <= i < repo@.users.len() && #[trigger] repo@.users[i].id == m.sender {
                    r matches OutboundStep::Deliver(p, id) && id == m.id && (p@ matches
                        PacketV::Message { message, sender, recipient, timestamp } && message
                        == m.message && recipient == "SELF"@ && timestamp == m.timestamp && (
                    exists|i: int|
                        0 <= i < repo@.users.len() && #[trigger] repo@.users[i].id == m.sender
                            && repo@.users[i].username == sender))
                } else {
                    r is Idle
                }
            },
            Option::None => r is Idle,
        },
{
    if global_terminate || session.local_terminate {
        return OutboundStep::Exit(Packet::Disconnect);
    }
    let user_id = match session.user_id {
        Option::Some(id) => id,
        Option::None => {
            proof {
                assert(false);
            }
            vstd::pervasive::unreached()
        },
    };
    match get_next_msg(repo, user_id) {
        Result::Ok(Option::Some(q)) => {
            let DBMessageQuery { id, sender, message, timestamp } = q;
            OutboundStep::Deliver(
                Packet::Message {
                    message,
                    sender,
                    recipient: String::from_str("SELF"),
                    timestamp,
                },
                id,
            )
        },
        Result::Ok(Option::None) => OutboundStep::Idle,
        Result::Err(_) => OutboundStep::Idle,
    }
}

/// Confirm a delivery attempt. Only a confirmed successful send deletes
/// the queue entry — and then nothing but that entry; a failed send
/// leaves the store exactly as it was, so the message stays queued for a
/// later attempt.
pub fn confirm_delivery(repo: &mut Repository, id: u64, send_succeeded: bool)
    requires
        wf(old(repo)@),
    ensures
        wf(final(repo)@),
        !send_succeeded ==> final(repo)@ == old(repo)@,
        send_succeeded ==> {
            &&& !has_msg_id(final(repo)@.queue, id)
            &&& !has_msg_id(old(repo)@.queue, id) ==> final(repo)@ == old(repo)@
            &&& has_msg_id(old(repo)@.queue, id) ==> final(repo)@.queue
                == old(repo)@.queue.remove(msg_index_of(old(repo)@.queue, id))
                && final(repo)@.users == old(repo)@.users
        },
{
    if send_succeeded {
        let _ = delete_msg(repo, id);
    }
}

/// At-least-once delivery, the retention half: deleting one delivered
/// queue entry removes no other — every other queued message, for this
/// recipient or any other, is still queued afterwards.
pub proof fn lemma_delivery_keeps_others(queue: Seq<MsgV>, ix: int, other: u64)
    requires
        0 <= ix < queue.len(),
        queue[ix].id != other,
        has_msg_id(queue, other),
    ensures
        has_msg_id(queue.remove(ix), other),
{
    let w = choose|i: int| 0 <= i < queue.len() && #[trigger] queue[i].id == other;
    if w < ix {
        assert(queue.remove(ix)[w] == queue[w]);
    } else {
        assert(queue.remove(ix)[w - 1] == queue[w]);
    }
}

} // verus!
