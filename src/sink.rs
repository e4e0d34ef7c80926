//! The sync sink: drains the pending queue one message at a time. A sent message stays
//! in flight until its acknowledgment arrives; when its deadline passes first it is sent
//! again under the same id.
use vstd::prelude::*;

use crate::pending::{is_next, MessageState, MsgId, PendingMessage, PendingMsgQueue, PendingView};

verus! {

/// Default time, in seconds, that a sent message may wait for its acknowledgment.
pub const DEFAULT_SYNC_TIMEOUT: u64 = 2;

/// How long the sink waits for an acknowledgment before sending again.
#[derive(Debug, Clone, Copy, PartialEq, Eq, Structural)]
pub struct SinkConfig {
    pub timeout: u64,
}

impl SinkConfig {
    pub fn new() -> (r: Self)
        ensures
            r.timeout == DEFAULT_SYNC_TIMEOUT,
    {
        SinkConfig { timeout: DEFAULT_SYNC_TIMEOUT }
    }

    pub fn with_timeout(self, timeout: u64) -> (r: Self)
        ensures
            r.timeout == timeout,
    {
        SinkConfig { timeout }
    }
}

/// What the runner is to do after a poll of the sink.
#[derive(Debug, Clone, Copy, PartialEq, Eq, Structural)]
pub enum SinkAction {
    /// Send the message with this id, which is now in flight.
    Send(MsgId),
    /// The in-flight message timed out: send it again.
    Resend(MsgId),
    /// Nothing to send now.
    Wait,
}

/// What the contracts say of a sink.
pub struct SinkView {
    pub queued: Seq<PendingView>,
    pub in_flight: Option<PendingView>,
    pub deadline: u64,
    pub next_id: MsgId,
    pub timeout: u64,
}

/// `now + timeout`, held at the largest time.
pub open spec fn deadline_after(now: u64, timeout: u64) -> u64 {
    if now as int + timeout as int > u64::MAX as int {
        u64::MAX
    } else {
        (now + timeout) as u64
    }
}

/// The sink after the in-flight message timed out at `now` and was sent again.
pub open spec fn after_retry(v: SinkView, now: u64) -> SinkView {
    SinkView {
        in_flight: Some(PendingView { state: MessageState::Processing, ..v.in_flight->Some_0 }),
        deadline: deadline_after(now, v.timeout),
        ..v
    }
}

/// The sink after an acknowledgment of `id`, and whether a waiter is to be told.
pub open spec fn after_ack(v: SinkView, id: MsgId) -> (SinkView, bool) {
    match v.in_flight {
        Some(m) => if m.msg_id == id {
            (SinkView { in_flight: None, ..v }, m.waiting)
        } else {
            (v, false)
        },
        None => (v, false),
    }
}

/// The sink of one document's sync session.
pub struct CollabSink<Msg> {
    queue: PendingMsgQueue<Msg>,
    in_flight: Option<PendingMessage<Msg>>,
    deadline: u64,
    next_id: MsgId,
    timeout: u64,
}

impl<Msg> CollabSink<Msg> {
    pub closed spec fn view(&self) -> SinkView {
        SinkView {
            queued: self.queue.view(),
            in_flight: match self.in_flight {
                Some(m) => Some(m.view()),
                None => None,
            },
            deadline: self.deadline,
            next_id: self.next_id,
            timeout: self.timeout,
        }
    }

    /// The queued messages, in the order of `view().queued`.
    pub closed spec fn queued_msgs(&self) -> Seq<Msg> {
        self.queue.msgs()
    }

    /// The message in flight, if any.
    pub closed spec fn in_flight_spec_msg(&self) -> Option<Msg> {
        match self.in_flight {
            Some(m) => Some(m.spec_msg()),
            None => None,
        }
    }

    /// An idle sink with an empty queue; the first message gets id 0.
    pub fn new(config: SinkConfig) -> (r: Self)
        ensures
            r.view().queued.len() == 0,
            r.view().in_flight is None,
            r.view().next_id == 0,
            r.view().timeout == config.timeout,
            r.queued_msgs().len() == 0,
    {
        CollabSink {
            queue: PendingMsgQueue::new(),
            in_flight: None,
            deadline: 0,
            next_id: 0,
            timeout: config.timeout,
        }
    }

    /// Queues `msg` under the next id and returns that id; `None` once ids are used up.
    /// With `wait`, the caller is told when the message is acknowledged.
    pub fn queue_msg(&mut self, priority: u8, msg: Msg, wait: bool) -> (r: Option<MsgId>)
        ensures
            old(self).view().next_id == MsgId::MAX ==> r is None && final(self).view() == old(self).view(),
            old(self).view().next_id < MsgId::MAX ==> r == Some(old(self).view().next_id)
                && final(self).view() == (SinkView {
                    queued: old(self).view().queued.push(
                        PendingView {
                            msg_id: old(self).view().next_id,
                            priority,
                            state: MessageState::Pending,
                            waiting: wait,
                        },
                    ),
                    next_id: (old(self).view().next_id + 1) as u64,
                    ..old(self).view()
                }) && final(self).queued_msgs() == old(self).queued_msgs().push(msg)
                && final(self).in_flight_spec_msg() == old(self).in_flight_spec_msg(),
            r is None ==> final(self).queued_msgs() == old(self).queued_msgs()
                && final(self).in_flight_spec_msg() == old(self).in_flight_spec_msg(),
    {
        if self.next_id == MsgId::MAX {
            return None;
        }
        let id = self.next_id;
        let mut m = PendingMessage::new(msg, id, priority);
        if wait {
            m.set_ret();
        }
        self.queue.push_queued(m);
        self.next_id = id + 1;
        Some(id)
    }

    /// The id the next queued message gets.
    pub fn next_id(&self) -> (r: MsgId)
        ensures
            r == self.view().next_id,
    {
        self.next_id
    }

    /// The message in flight, if any.
    pub fn in_flight_msg(&self) -> (r: Option<&Msg>)
        ensures
            r is Some == self.view().in_flight is Some,
            r is Some ==> self.in_flight_spec_msg() == Some(*r->Some_0),
    {
        match &self.in_flight {
            Some(m) => Some(m.get_msg()),
            None => None,
        }
    }

    /// Decides what to send at time `now`: with nothing in flight, the queued message that
    /// goes first; with a message in flight past its deadline, that message again.
    pub fn poll(&mut self, now: u64) -> (r: SinkAction)
        ensures
            ({
                let v = old(self).view();
                match v.in_flight {
                    Some(m) => final(self).queued_msgs() == old(self).queued_msgs()
                        && final(self).in_flight_spec_msg() == old(self).in_flight_spec_msg() && if now
                        >= v.deadline {
                        r == SinkAction::Resend(m.msg_id) && final(self).view() == after_retry(v, now)
                    } else {
                        r == SinkAction::Wait && final(self).view() == v
                    },
                    None => if v.queued.len() == 0 {
                        r == SinkAction::Wait && final(self).view() == v && final(self).queued_msgs()
                            == old(self).queued_msgs() && final(self).in_flight_spec_msg() == old(
                            self,
                        ).in_flight_spec_msg()
                    } else {
                        exists|i: int|
                            is_next(v.queued, i) && r == SinkAction::Send(v.queued[i].msg_id)
                                && final(self).queued_msgs() == old(self).queued_msgs().remove(i)
                                && final(self).in_flight_spec_msg() == Some(old(self).queued_msgs()[i])
                                && final(self).view() == (SinkView {
                                queued: v.queued.remove(i),
                                in_flight: Some(
                                    PendingView { state: MessageState::Processing, ..v.queued[i] },
                                ),
                                deadline: deadline_after(now, v.timeout),
                                ..v
                            })
                    },
                }
            }),
    {
        let deadline = if now > u64::MAX - self.timeout {
            u64::MAX
        } else {
            now + self.timeout
        };
        match self.in_flight.take() {
            Some(mut m) => {
                if now >= self.deadline {
                    let _ = m.set_state(MessageState::Timeout);
                    let _ = m.set_state(MessageState::Processing);
                    let id = m.msg_id();
                    self.in_flight = Some(m);
                    self.deadline = deadline;
                    SinkAction::Resend(id)
                } else {
                    self.in_flight = Some(m);
                    SinkAction::Wait
                }
            },
            None => {
                let ghost q0 = self.queue.view();
                let ghost ms0 = self.queue.msgs();
                match self.queue.pop() {
                    None => SinkAction::Wait,
                    Some(mut m) => {
                        let ghost i = choose|i: int|
                            is_next(q0, i) && m.view() == q0[i] && m.spec_msg() == ms0[i]
                                && self.queue.msgs() == ms0.remove(i) && self.queue.view() == q0.remove(i);
                        let _ = m.set_state(MessageState::Processing);
                        let id = m.msg_id();
                        self.in_flight = Some(m);
                        self.deadline = deadline;
                        assert(self.queued_msgs() == old(self).queued_msgs().remove(i));
                        assert(self.in_flight_spec_msg() == Some(old(self).queued_msgs()[i]));
                        SinkAction::Send(id)
                    },
                }
            },
        }
    }

    /// Records the acknowledgment of `msg_id`. Returns whether a waiter is to be told;
    /// an acknowledgment of anything but the in-flight message changes nothing.
    pub fn ack_msg(&mut self, msg_id: MsgId) -> (fire: bool)
        ensures
            (final(self).view(), fire) == after_ack(old(self).view(), msg_id),
            final(self).queued_msgs() == old(self).queued_msgs(),
            final(self).view().in_flight is Some ==> final(self).in_flight_spec_msg() == old(
                self,
            ).in_flight_spec_msg(),
    {
        match self.in_flight.take() {
            Some(mut m) => {
                if m.msg_id() == msg_id {
                    let fire = m.set_state(MessageState::Done);
                    fire
                } else {
                    self.in_flight = Some(m);
                    false
                }
            },
            None => false,
        }
    }
}

/// A message that times out and is sent again keeps its id, stays in flight, and its
/// waiter is not told.
pub proof fn lemma_retry_keeps_message(v: SinkView, now: u64)
    requires
        v.in_flight is Some,
    ensures
        after_retry(v, now).in_flight is Some,
        after_retry(v, now).in_flight->Some_0.msg_id == v.in_flight->Some_0.msg_id,
        after_retry(v, now).in_flight->Some_0.waiting == v.in_flight->Some_0.waiting,
        after_retry(v, now).queued == v.queued,
{
}

/// The waiter of a message is told exactly once: on the acknowledgment of the in-flight
/// message, and never on a repeated acknowledgment of the same id.
pub proof fn lemma_ack_fires_once(v: SinkView, id: MsgId)
    ensures
        after_ack(v, id).1 == (v.in_flight is Some && v.in_flight->Some_0.msg_id == id
            && v.in_flight->Some_0.waiting),
        !after_ack(after_ack(v, id).0, id).1,
{
}

/// However many times a message is resent, an acknowledgment then tells its waiter.
pub proof fn lemma_retries_then_ack(v: SinkView, now: u64)
    requires
        v.in_flight is Some,
        v.in_flight->Some_0.waiting,
    ensures
        after_ack(after_retry(v, now), v.in_flight->Some_0.msg_id).1,
        !after_ack(after_ack(after_retry(v, now), v.in_flight->Some_0.msg_id).0, v.in_flight->Some_0.msg_id).1,
{
}

} // verus!
