//! The client side of the sync protocol around one document: the replies that the y-sync
//! handler produced for an inbound server message are queued on the sink, acknowledgments
//! retire the in-flight message, and a session opens with the document's initial state.
use vstd::prelude::*;

use yrs::sync::Protocol;
use yrs::updates::encoder::Encoder;

use crate::pending::{MessageState, MsgId, PendingView};
use crate::sink::{after_ack, CollabSink, SinkView};

verus! {

#[verifier::external_type_specification]
#[verifier::external_body]
pub struct ExAwareness(yrs::sync::Awareness);

#[verifier::external_type_specification]
#[verifier::external_body]
pub struct ExSyncError(yrs::sync::Error);

/// Relies on yrs's `Protocol::start` of `DefaultProtocol`: the opening messages of a session
/// (sync step 1 with the state vector, and the awareness state), written by `EncoderV1`.
#[verifier::external_body]
fn start_payload(awareness: &yrs::sync::Awareness) -> (r: Result<Vec<u8>, yrs::sync::Error>) {
    let mut encoder = yrs::updates::encoder::EncoderV1::new();
    yrs::sync::DefaultProtocol.start(awareness, &mut encoder)?;
    Ok(encoder.to_vec())
}

/// Priority of the message that opens a session: sent before anything else.
pub const PRIORITY_INIT: u8 = 2;
/// Priority of a reply to a message that came with an acknowledgment.
pub const PRIORITY_SERVER_SYNC: u8 = 1;
/// Priority of a reply to a broadcast update.
pub const PRIORITY_UPDATE: u8 = 0;

/// What an outbound message carries.
#[derive(Debug, Clone, Copy, PartialEq, Eq, Structural)]
pub enum OutboundKind {
    /// Opens the session with the document's initial state.
    ClientInit,
    /// Replies to a payload that came with an acknowledgment.
    ServerSync,
    /// Replies to a broadcast.
    ClientUpdate,
}

/// An outbound message before the sink gives it an id.
pub struct OutboundMsg {
    pub kind: OutboundKind,
    pub payload: Vec<u8>,
}

/// A message from the server.
pub enum ServerMessage {
    /// The server acknowledges `msg_id`, possibly with a y-sync payload of its own.
    Ack { msg_id: MsgId, payload: Option<Vec<u8>> },
    /// An update from another client: y-sync messages one after another.
    Broadcast { payload: Vec<u8> },
}

/// What the y-sync handler made of an inbound payload.
pub enum HandlerOutcome {
    /// Every message of the payload was handled; these encoded replies are to be sent back.
    Replies(Vec<Vec<u8>>),
    /// The payload's first message did not decode; nothing was handled.
    Undecodable,
    /// Handling stopped at an error (a message that did not decode after earlier ones, or
    /// one the handler rejected); these are the replies to the messages handled before it.
    Failed(Vec<Vec<u8>>),
}

/// Why processing an inbound message failed.
#[derive(Debug, Clone, Copy, PartialEq, Eq, Structural)]
pub enum SyncError {
    /// The broadcast payload did not decode, or the protocol handler rejected it.
    Protocol,
}

/// The sink after `n` replies were queued with `priority`: pending, nobody waiting, under
/// consecutive ids from `v.next_id`.
pub open spec fn with_replies(v: SinkView, n: nat, priority: u8) -> SinkView {
    SinkView {
        queued: v.queued + Seq::new(
            n,
            |j: int|
                PendingView {
                    msg_id: (v.next_id + j) as u64,
                    priority,
                    state: MessageState::Pending,
                    waiting: false,
                },
        ),
        next_id: (v.next_id + n) as u64,
        ..v
    }
}

/// The outbound messages of kind `kind` that carry `replies`, in order.
pub open spec fn reply_msgs(replies: Seq<Vec<u8>>, kind: OutboundKind) -> Seq<OutboundMsg> {
    replies.map_values(|p: Vec<u8>| OutboundMsg { kind, payload: p })
}

/// The replies an outcome carries, whether or not handling finished.
pub open spec fn outcome_replies(handled: Option<HandlerOutcome>) -> Seq<Vec<u8>> {
    match handled {
        Some(HandlerOutcome::Replies(rs)) => rs@,
        Some(HandlerOutcome::Failed(rs)) => rs@,
        _ => Seq::empty(),
    }
}

/// The handler stopped at an error after decoding.
pub open spec fn handler_failed(handled: Option<HandlerOutcome>) -> bool {
    match handled {
        Some(HandlerOutcome::Failed(_)) => true,
        _ => false,
    }
}

/// The handler did not decode the payload.
pub open spec fn undecodable(handled: Option<HandlerOutcome>) -> bool {
    match handled {
        Some(HandlerOutcome::Undecodable) => true,
        _ => false,
    }
}

/// The replies queued for an acknowledgment: those of a payload handled in full.
pub open spec fn ack_replies(payload: Option<Vec<u8>>, handled: Option<HandlerOutcome>) -> Seq<Vec<u8>> {
    match (payload, handled) {
        (Some(_), Some(HandlerOutcome::Replies(rs))) => rs@,
        _ => Seq::empty(),
    }
}

/// The replies queued for a broadcast: those of every message handled, also when a later
/// one failed; none for an empty payload.
pub open spec fn broadcast_replies(payload: Vec<u8>, handled: Option<HandlerOutcome>) -> Seq<Vec<u8>> {
    if payload@.len() == 0 {
        Seq::empty()
    } else {
        outcome_replies(handled)
    }
}

/// Whether `n` more messages can be queued on the sink without running out of ids, as
/// `process_message` requires.
pub fn outcome_len_fits(sink: &CollabSink<OutboundMsg>, n: usize) -> (r: bool)
    ensures
        r == (sink.view().next_id + n <= MsgId::MAX),
{
    let id = sink.next_id();
    (n as u64) <= MsgId::MAX - id
}

/// Queues each reply, in order, as an outbound message of `kind` with `priority`.
pub fn queue_replies(
    sink: &mut CollabSink<OutboundMsg>,
    replies: Vec<Vec<u8>>,
    kind: OutboundKind,
    priority: u8,
)
    requires
        old(sink).view().next_id + replies@.len() <= MsgId::MAX,
    ensures
        final(sink).view() == with_replies(old(sink).view(), replies@.len(), priority),
        final(sink).queued_msgs() == old(sink).queued_msgs() + reply_msgs(replies@, kind),
        final(sink).in_flight_spec_msg() == old(sink).in_flight_spec_msg(),
{
    let ghost v0 = sink.view();
    let ghost m0 = sink.queued_msgs();
    let ghost all = replies@;
    let mut replies = replies;
    let n = replies.len();
    let mut i: usize = 0;
    assert(with_replies(v0, 0, priority).queued =~= v0.queued);
    assert(m0 + reply_msgs(all.take(0), kind) =~= m0);
    while i < n
        invariant
            n == all.len(),
            i <= n,
            replies@ == all.subrange(i as int, n as int),
            v0.next_id + all.len() <= MsgId::MAX,
            sink.view() == with_replies(v0, i as nat, priority),
            sink.queued_msgs() == m0 + reply_msgs(all.take(i as int), kind),
            sink.in_flight_spec_msg() == old(sink).in_flight_spec_msg(),
            v0 == old(sink).view(),
            m0 == old(sink).queued_msgs(),
        decreases n - i,
    {
        let payload = replies.remove(0);
        assert(payload == all[i as int]);
        let ghost before = sink.queued_msgs();
        let id = sink.queue_msg(priority, OutboundMsg { kind, payload }, false);
        assert(id is Some);
        assert(sink.view().queued =~= with_replies(v0, (i + 1) as nat, priority).queued);
        assert(reply_msgs(all.take(i + 1), kind) =~= reply_msgs(all.take(i as int), kind).push(
            OutboundMsg { kind, payload: all[i as int] },
        ));
        assert(sink.queued_msgs() =~= m0 + reply_msgs(all.take(i + 1), kind));
        i = i + 1;
        assert(replies@ =~= all.subrange(i as int, n as int));
    }
    assert(all.take(n as int) =~= all);
}

/// Handles one message from the server, given what the y-sync handler made of its payload
/// (`None` when it was not run).
/// - An acknowledgment without a payload, or whose payload did not decode, is recorded. One
///   whose payload was handled queues the replies, then is recorded. One whose payload the
///   handler rejected fails, and the sink is left as it was. Recording retires the in-flight
///   message if it is the one acknowledged; the result says whether its waiter is to be told.
/// - A broadcast with an empty payload does nothing. Otherwise the replies of every message
///   handled are queued, and the result is an error when handling stopped early.
pub fn process_message(
    sink: &mut CollabSink<OutboundMsg>,
    msg: ServerMessage,
    handled: Option<HandlerOutcome>,
) -> (r: Result<bool, SyncError>)
    requires
        old(sink).view().next_id + outcome_replies(handled).len() <= MsgId::MAX,
    ensures
        match msg {
            ServerMessage::Ack { msg_id, payload } => if payload is Some && handler_failed(handled) {
                &&& r == Err::<bool, SyncError>(SyncError::Protocol)
                &&& final(sink).view() == old(sink).view()
                &&& final(sink).queued_msgs() == old(sink).queued_msgs()
            } else {
                let rs = ack_replies(payload, handled);
                &&& r is Ok
                &&& (final(sink).view(), r->Ok_0) == after_ack(
                    with_replies(old(sink).view(), rs.len(), PRIORITY_SERVER_SYNC),
                    msg_id,
                )
                &&& final(sink).queued_msgs() == old(sink).queued_msgs() + reply_msgs(rs, OutboundKind::ServerSync)
            },
            ServerMessage::Broadcast { payload } => {
                let rs = broadcast_replies(payload, handled);
                &&& r == if payload@.len() > 0 && (undecodable(handled) || handler_failed(handled)) {
                    Err::<bool, SyncError>(SyncError::Protocol)
                } else {
                    Ok::<bool, SyncError>(false)
                }
                &&& final(sink).view() == with_replies(old(sink).view(), rs.len(), PRIORITY_UPDATE)
                &&& final(sink).queued_msgs() == old(sink).queued_msgs() + reply_msgs(rs, OutboundKind::ClientUpdate)
                &&& final(sink).in_flight_spec_msg() == old(sink).in_flight_spec_msg()
            },
        },
{
    match msg {
        ServerMessage::Ack { msg_id, payload } => {
            if payload.is_some() {
                match handled {
                    Some(HandlerOutcome::Failed(_)) => {
                        return Err(SyncError::Protocol);
                    },
                    Some(HandlerOutcome::Replies(rs)) => {
                        queue_replies(sink, rs, OutboundKind::ServerSync, PRIORITY_SERVER_SYNC);
                    },
                    _ => {
                        proof { lemma_no_replies(sink.view(), sink.queued_msgs(), PRIORITY_SERVER_SYNC, OutboundKind::ServerSync); }
                    },
                }
            } else {
                proof { lemma_no_replies(sink.view(), sink.queued_msgs(), PRIORITY_SERVER_SYNC, OutboundKind::ServerSync); }
            }
            let fire = sink.ack_msg(msg_id);
            Ok(fire)
        },
        ServerMessage::Broadcast { payload } => {
            if payload.len() == 0 {
                proof { lemma_no_replies(sink.view(), sink.queued_msgs(), PRIORITY_UPDATE, OutboundKind::ClientUpdate); }
                return Ok(false);
            }
            match handled {
                Some(HandlerOutcome::Replies(rs)) => {
                    queue_replies(sink, rs, OutboundKind::ClientUpdate, PRIORITY_UPDATE);
                    Ok(false)
                },
                Some(HandlerOutcome::Failed(rs)) => {
                    queue_replies(sink, rs, OutboundKind::ClientUpdate, PRIORITY_UPDATE);
                    Err(SyncError::Protocol)
                },
                Some(HandlerOutcome::Undecodable) => {
                    proof { lemma_no_replies(sink.view(), sink.queued_msgs(), PRIORITY_UPDATE, OutboundKind::ClientUpdate); }
                    Err(SyncError::Protocol)
                },
                None => {
                    proof { lemma_no_replies(sink.view(), sink.queued_msgs(), PRIORITY_UPDATE, OutboundKind::ClientUpdate); }
                    Ok(false)
                },
            }
        },
    }
}

proof fn lemma_no_replies(v: SinkView, q: Seq<OutboundMsg>, priority: u8, kind: OutboundKind)
    ensures
        with_replies(v, 0, priority) == v,
        q + reply_msgs(Seq::empty(), kind) == q,
{
    assert(with_replies(v, 0, priority).queued =~= v.queued);
    assert(q + reply_msgs(Seq::empty(), kind) =~= q);
}

/// The opening payload of a session from what the protocol's start produced: `None` when
/// it failed or produced nothing.
pub fn init_state_from(start: Option<Vec<u8>>) -> (r: Option<Vec<u8>>)
    ensures
        r == match start {
            Some(p) => if p@.len() > 0 {
                Some(p)
            } else {
                None
            },
            None => None,
        },
{
    match start {
        Some(p) => if p.len() == 0 {
            None
        } else {
            Some(p)
        },
        None => None,
    }
}

/// The opening messages of a session, or `None` when the protocol produced none.
pub fn doc_init_state(awareness: &yrs::sync::Awareness) -> (r: Option<Vec<u8>>)
    ensures
        r is Some ==> r->Some_0@.len() > 0,
{
    let start = match start_payload(awareness) {
        Ok(p) => Some(p),
        Err(_) => None,
    };
    init_state_from(start)
}

/// Queues the opening message of a session ahead of everything else. Returns its id;
/// `None`, with the sink unchanged, when there is no payload or no id is left.
pub fn queue_init(sink: &mut CollabSink<OutboundMsg>, payload: Option<Vec<u8>>) -> (r: Option<MsgId>)
    ensures
        (payload is Some && payload->Some_0@.len() > 0 && old(sink).view().next_id < MsgId::MAX)
            == (r is Some),
        r is Some ==> r == Some(old(sink).view().next_id) && final(sink).view() == (SinkView {
            queued: old(sink).view().queued.push(
                PendingView {
                    msg_id: old(sink).view().next_id,
                    priority: PRIORITY_INIT,
                    state: MessageState::Pending,
                    waiting: false,
                },
            ),
            next_id: (old(sink).view().next_id + 1) as u64,
            ..old(sink).view()
        }) && final(sink).queued_msgs() == old(sink).queued_msgs().push(
            OutboundMsg { kind: OutboundKind::ClientInit, payload: payload->Some_0 },
        ),
        r is None ==> final(sink).view() == old(sink).view() && final(sink).queued_msgs() == old(
            sink,
        ).queued_msgs(),
{
    match payload {
        Some(p) => {
            if p.len() == 0 {
                return None;
            }
            sink.queue_msg(PRIORITY_INIT, OutboundMsg { kind: OutboundKind::ClientInit, payload: p }, false)
        },
        None => None,
    }
}

/// Queues the session's opening message, made from the document's state, ahead of
/// everything else (see `queue_init`).
pub fn notify(sink: &mut CollabSink<OutboundMsg>, awareness: &yrs::sync::Awareness) -> (r: Option<MsgId>)
    ensures
        r is None ==> final(sink).view() == old(sink).view(),
        r is Some ==> r == Some(old(sink).view().next_id) && final(sink).view().queued == old(
            sink,
        ).view().queued.push(
            PendingView {
                msg_id: old(sink).view().next_id,
                priority: PRIORITY_INIT,
                state: MessageState::Pending,
                waiting: false,
            },
        ) && final(sink).view().next_id == old(sink).view().next_id + 1
            && final(sink).queued_msgs().len() == old(sink).queued_msgs().len() + 1
            && final(sink).queued_msgs().take(old(sink).queued_msgs().len() as int) == old(sink).queued_msgs()
            && final(sink).queued_msgs().last().kind == OutboundKind::ClientInit
            && final(sink).queued_msgs().last().payload@.len() > 0,
        r is None ==> final(sink).queued_msgs() == old(sink).queued_msgs(),
{
    let payload = doc_init_state(awareness);
    let r = queue_init(sink, payload);
    proof {
        if r is Some {
            assert(sink.queued_msgs().take(old(sink).queued_msgs().len() as int) =~= old(sink).queued_msgs());
        }
    }
    r
}

} // verus!
