//! The outbound queue of the sync client: messages wait here, ordered by priority,
//! until the sink sends them, and move through `Pending -> Processing -> Done | Timeout`.
use vstd::prelude::*;

verus! {

/// Identifier that the sink gives each outbound message, in creation order.
pub type MsgId = u64;

/// Where a message is in its life.
#[derive(Debug, Clone, Copy, PartialEq, Eq, Structural)]
pub enum MessageState {
    /// Queued, not yet sent.
    Pending,
    /// Sent; waiting for the acknowledgment.
    Processing,
    /// Acknowledged.
    Done,
    /// Its deadline passed without an acknowledgment; it will be sent again.
    Timeout,
}

impl MessageState {
    pub fn is_done(&self) -> (r: bool)
        ensures
            r == (*self == MessageState::Done),
    {
        matches!(self, MessageState::Done)
    }

    pub fn is_processing(&self) -> (r: bool)
        ensures
            r == (*self == MessageState::Processing),
    {
        matches!(self, MessageState::Processing)
    }

    pub fn is_pending(&self) -> (r: bool)
        ensures
            r == (*self == MessageState::Pending),
    {
        matches!(self, MessageState::Pending)
    }
}

/// A message in the outbound queue, with its id, priority (higher is sent first), state,
/// and whether someone waits for its acknowledgment.
pub struct PendingMessage<Msg> {
    msg: Msg,
    msg_id: MsgId,
    priority: u8,
    state: MessageState,
    waiting: bool,
}

/// What the contracts say of a pending message: id, priority, state, and whether a
/// waiter is still to be told of its acknowledgment.
pub struct PendingView {
    pub msg_id: MsgId,
    pub priority: u8,
    pub state: MessageState,
    pub waiting: bool,
}

/// A message after a move to `s`, and whether its waiter is told.
pub open spec fn after_set_state(v: PendingView, s: MessageState) -> (PendingView, bool) {
    let fire = s == MessageState::Done && v.waiting;
    (PendingView { state: s, waiting: v.waiting && !fire, ..v }, fire)
}

/// A message after moving through `states` in turn, and how many times its waiter was told.
pub open spec fn after_states(v: PendingView, states: Seq<MessageState>) -> (PendingView, nat)
    decreases states.len(),
{
    if states.len() == 0 {
        (v, 0)
    } else {
        let (w, n) = after_states(v, states.drop_last());
        let (x, fire) = after_set_state(w, states.last());
        (x, if fire { n + 1 } else { n })
    }
}

/// Whatever states a message moves through (sent, timed out, sent again, acknowledged,
/// acknowledged again), it keeps its id, and its waiter is told once if it had one and
/// the message reached `Done`, and never otherwise.
pub proof fn lemma_waiter_told_once(v: PendingView, states: Seq<MessageState>)
    ensures
        after_states(v, states).0.msg_id == v.msg_id,
        after_states(v, states).0.priority == v.priority,
        after_states(v, states).1 == if v.waiting && states.contains(MessageState::Done) {
            1nat
        } else {
            0nat
        },
        after_states(v, states).0.waiting == (v.waiting && !states.contains(MessageState::Done)),
    decreases states.len(),
{
    if states.len() > 0 {
        let rest = states.drop_last();
        lemma_waiter_told_once(v, rest);
        assert(states.contains(MessageState::Done) == (rest.contains(MessageState::Done)
            || states.last() == MessageState::Done)) by {
            if states.last() == MessageState::Done {
                assert(states[states.len() - 1] == MessageState::Done);
            }
            if rest.contains(MessageState::Done) {
                let i = choose|i: int| 0 <= i < rest.len() && rest[i] == MessageState::Done;
                assert(states[i] == MessageState::Done);
            }
            if states.contains(MessageState::Done) {
                let i = choose|i: int| 0 <= i < states.len() && states[i] == MessageState::Done;
                if i < states.len() - 1 {
                    assert(rest[i] == MessageState::Done);
                }
            }
        }
    } else {
        assert(!states.contains(MessageState::Done));
    }
}

impl<Msg> PendingMessage<Msg> {
    pub closed spec fn view(&self) -> PendingView {
        PendingView {
            msg_id: self.msg_id,
            priority: self.priority,
            state: self.state,
            waiting: self.waiting,
        }
    }

    pub closed spec fn spec_msg(&self) -> Msg {
        self.msg
    }

    /// A pending message that nobody waits for yet.
    pub fn new(msg: Msg, msg_id: MsgId, priority: u8) -> (r: Self)
        ensures
            r.view() == (PendingView {
                msg_id,
                priority,
                state: MessageState::Pending,
                waiting: false,
            }),
            r.spec_msg() == msg,
    {
        PendingMessage { msg, msg_id, priority, state: MessageState::Pending, waiting: false }
    }

    pub fn get_msg(&self) -> (r: &Msg)
        ensures
            *r == self.spec_msg(),
    {
        &self.msg
    }

    pub fn get_mut_msg(&mut self) -> (r: &mut Msg)
        ensures
            *r == old(self).spec_msg(),
            final(self).view() == old(self).view(),
            final(self).spec_msg() == *final(r),
    {
        &mut self.msg
    }

    pub fn state(&self) -> (r: MessageState)
        ensures
            r == self.view().state,
    {
        self.state
    }

    pub fn msg_id(&self) -> (r: MsgId)
        ensures
            r == self.view().msg_id,
    {
        self.msg_id
    }

    pub fn priority(&self) -> (r: u8)
        ensures
            r == self.view().priority,
    {
        self.priority
    }

    /// From now on someone waits for this message's acknowledgment.
    pub fn set_ret(&mut self)
        ensures
            final(self).view() == (PendingView { waiting: true, ..old(self).view() }),
            final(self).spec_msg() == old(self).spec_msg(),
    {
        self.waiting = true;
    }

    /// Moves the message to `new_state`. Returns whether the waiter is to be told now:
    /// only on the move into `Done`, and only once.
    pub fn set_state(&mut self, new_state: MessageState) -> (fire: bool)
        ensures
            (final(self).view(), fire) == after_set_state(old(self).view(), new_state),
            final(self).spec_msg() == old(self).spec_msg(),
    {
        self.state = new_state;
        let fire = self.waiting && new_state.is_done();
        if fire {
            self.waiting = false;
        }
        fire
    }
}

/// `a` is sent before `b`: it has the higher priority. Among equal priorities the queue
/// keeps the order in which messages were queued; message ids play no part.
pub open spec fn goes_before(a: PendingView, b: PendingView) -> bool {
    a.priority > b.priority
}

/// Position `i` of `q` holds the message to send next: nothing outranks it, and everything
/// queued before it has a lower priority.
pub open spec fn is_next(q: Seq<PendingView>, i: int) -> bool {
    &&& 0 <= i < q.len()
    &&& forall|j: int| 0 <= j < q.len() ==> !goes_before(#[trigger] q[j], q[i])
    &&& forall|j: int| 0 <= j < i ==> goes_before(q[i], #[trigger] q[j])
}

/// The outbound queue. Its view is the messages it holds, in no particular order.
pub struct PendingMsgQueue<Msg> {
    queue: Vec<PendingMessage<Msg>>,
}

impl<Msg> PendingMsgQueue<Msg> {
    pub closed spec fn view(&self) -> Seq<PendingView> {
        self.queue@.map_values(|m: PendingMessage<Msg>| m.view())
    }

    /// The messages the queue holds, in the same order as `view`.
    pub closed spec fn msgs(&self) -> Seq<Msg> {
        self.queue@.map_values(|m: PendingMessage<Msg>| m.spec_msg())
    }

    pub fn new() -> (r: Self)
        ensures
            r.view() == Seq::<PendingView>::empty(),
            r.msgs().len() == 0,
    {
        let r = PendingMsgQueue { queue: Vec::new() };
        assert(r.view() =~= Seq::<PendingView>::empty());
        r
    }

    pub fn len(&self) -> (r: usize)
        ensures
            r == self.view().len(),
    {
        self.queue.len()
    }

    pub fn is_empty(&self) -> (r: bool)
        ensures
            r == (self.view().len() == 0),
    {
        self.queue.len() == 0
    }

    /// Queues `msg` as a new pending message.
    pub fn push_msg(&mut self, msg_id: MsgId, priority: u8, msg: Msg)
        ensures
            final(self).view() == old(self).view().push(
                PendingView { msg_id, priority, state: MessageState::Pending, waiting: false },
            ),
            final(self).msgs() == old(self).msgs().push(msg),
    {
        let m = PendingMessage::new(msg, msg_id, priority);
        self.queue.push(m);
        assert(self.msgs() =~= old(self).msgs().push(msg));
        assert(self.view() =~= old(self).view().push(
            PendingView { msg_id, priority, state: MessageState::Pending, waiting: false },
        ));
    }

    /// Queues a message that was built by the caller.
    pub fn push_queued(&mut self, m: PendingMessage<Msg>)
        ensures
            final(self).view() == old(self).view().push(m.view()),
            final(self).msgs() == old(self).msgs().push(m.spec_msg()),
    {
        self.queue.push(m);
        assert(self.msgs() =~= old(self).msgs().push(m.spec_msg()));
        assert(self.view() =~= old(self).view().push(m.view()));
    }

    /// Moves the queued message with id `msg_id` to `new_state`. Returns whether its waiter
    /// is to be told (see `PendingMessage::set_state`); `false`, with nothing changed, when
    /// no queued message has that id.
    pub fn mark_state(&mut self, msg_id: MsgId, new_state: MessageState) -> (fire: bool)
        ensures
            final(self).view().len() == old(self).view().len(),
            final(self).msgs() == old(self).msgs(),
            (forall|j: int| 0 <= j < old(self).view().len() ==> old(self).view()[j].msg_id != msg_id)
                ==> final(self).view() == old(self).view() && !fire,
            forall|i: int|
                0 <= i < old(self).view().len() && old(self).view()[i].msg_id == msg_id && (forall|j: int|
                    0 <= j < i ==> old(self).view()[j].msg_id != msg_id) ==> (final(self).view()[i], fire)
                    == after_set_state(old(self).view()[i], new_state) && final(self).view() == old(
                    self,
                ).view().update(i, final(self).view()[i]),
    {
        let mut i: usize = 0;
        while i < self.queue.len()
            invariant
                i <= self.queue@.len(),
                self.view() == old(self).view(),
                self.msgs() == old(self).msgs(),
                forall|j: int| 0 <= j < i ==> self.view()[j].msg_id != msg_id,
            decreases self.queue@.len() - i,
        {
            if self.queue[i].msg_id == msg_id {
                let mut m = self.queue.remove(i);
                assert(m.view() == old(self).view()[i as int]);
                let fire = m.set_state(new_state);
                let ghost mv = m.view();
                self.queue.insert(i, m);
                assert(self.view() =~= old(self).view().update(i as int, mv));
                assert(self.msgs() =~= old(self).msgs());
                assert(self.view()[i as int] == mv);
                assert(old(self).view()[i as int].msg_id == msg_id);
                assert forall|k: int|
                    0 <= k < old(self).view().len() && old(self).view()[k].msg_id == msg_id && (forall|j: int|
                        0 <= j < k ==> old(self).view()[j].msg_id != msg_id) implies k == i by {
                    if k > i {
                        assert(old(self).view()[i as int].msg_id == msg_id);
                    }
                }
                return fire;
            }
            i = i + 1;
        }
        false
    }

    fn best_index(&self) -> (r: usize)
        requires
            self.view().len() > 0,
        ensures
            is_next(self.view(), r as int),
    {
        let mut best: usize = 0;
        let mut i: usize = 1;
        while i < self.queue.len()
            invariant
                self.view().len() == self.queue@.len(),
                best < i <= self.queue@.len(),
                forall|j: int|
                    0 <= j < i ==> !goes_before(#[trigger] self.view()[j], self.view()[best as int]),
                forall|j: int| 0 <= j < best ==> goes_before(self.view()[best as int], #[trigger] self.view()[j]),
            decreases self.queue@.len() - i,
        {
            if self.queue[i].priority > self.queue[best].priority {
                best = i;
            }
            i = i + 1;
        }
        best
    }

    /// Takes out the message that is to be sent next: no message left in the queue goes
    /// before it.
    pub fn pop(&mut self) -> (r: Option<PendingMessage<Msg>>)
        ensures
            old(self).view().len() == 0 ==> r is None && final(self).view() == old(self).view()
                && final(self).msgs() == old(self).msgs(),
            old(self).view().len() > 0 ==> r is Some && exists|i: int|
                is_next(old(self).view(), i) && r->Some_0.view() == old(self).view()[i]
                    && r->Some_0.spec_msg() == old(self).msgs()[i] && final(self).msgs() == old(
                    self,
                ).msgs().remove(i) && final(self).view() == old(self).view().remove(i),
    {
        if self.queue.len() == 0 {
            return None;
        }
        let i = self.best_index();
        let m = self.queue.remove(i);
        assert(self.view() =~= old(self).view().remove(i as int));
        assert(self.msgs() =~= old(self).msgs().remove(i as int));
        Some(m)
    }
}

} // verus!
