use collab::pending::{MessageState, PendingMessage, PendingMsgQueue};
use collab::sink::{CollabSink, SinkAction, SinkConfig};

#[test]
fn sends_high_priority_first_then_in_order() {
    let mut sink = CollabSink::new(SinkConfig::new());
    let low1 = sink.queue_msg(1, "low-1", false).unwrap();
    let high = sink.queue_msg(5, "high", false).unwrap();
    let low2 = sink.queue_msg(1, "low-2", false).unwrap();
    let mut sent = Vec::new();
    for now in 0..3u64 {
        match sink.poll(now) {
            SinkAction::Send(id) => {
                sent.push(*sink.in_flight_msg().unwrap());
                assert!(!sink.ack_msg(id));
            },
            other => panic!("unexpected {:?}", other),
        }
    }
    assert_eq!(sent, vec!["high", "low-1", "low-2"]);
    assert_eq!((low1, high, low2), (0, 1, 2));
    assert_eq!(sink.poll(10), SinkAction::Wait);
}

#[test]
fn retry_keeps_id_and_fires_once_on_done() {
    let mut sink = CollabSink::new(SinkConfig::new().with_timeout(2));
    let id = sink.queue_msg(0, 42u32, true).unwrap();
    assert_eq!(sink.poll(100), SinkAction::Send(id));
    assert_eq!(sink.poll(101), SinkAction::Wait);
    assert_eq!(sink.poll(102), SinkAction::Resend(id));
    assert_eq!(sink.poll(104), SinkAction::Resend(id));
    assert!(!sink.ack_msg(id + 1));
    assert!(sink.ack_msg(id));
    assert!(!sink.ack_msg(id));
    assert_eq!(sink.poll(200), SinkAction::Wait);
}

#[test]
fn message_state_transitions() {
    let mut m = PendingMessage::new("m", 7, 0);
    assert!(m.state().is_pending());
    m.set_ret();
    assert!(!m.set_state(MessageState::Processing));
    assert!(m.state().is_processing());
    assert!(!m.set_state(MessageState::Timeout));
    assert!(m.set_state(MessageState::Done));
    assert!(m.state().is_done());
    assert!(!m.set_state(MessageState::Done));
    assert_eq!(m.msg_id(), 7);
}

#[test]
fn queue_pops_by_priority() {
    let mut q = PendingMsgQueue::new();
    q.push_msg(1, 0, 'a');
    q.push_msg(2, 9, 'b');
    q.push_msg(3, 0, 'c');
    assert_eq!(q.len(), 3);
    let order: Vec<char> = (0..3).map(|_| *q.pop().unwrap().get_msg()).collect();
    assert_eq!(order, vec!['b', 'a', 'c']);
    assert!(q.is_empty());
    assert!(q.pop().is_none());
}

#[test]
fn queue_mark_state_fires_once_for_waiting_message() {
    let mut q = PendingMsgQueue::new();
    q.push_msg(1, 0, "a");
    let mut waited = PendingMessage::new("b", 2, 0);
    waited.set_ret();
    q.push_queued(waited);
    assert!(!q.mark_state(9, MessageState::Done));
    assert!(!q.mark_state(1, MessageState::Done));
    assert!(!q.mark_state(2, MessageState::Processing));
    assert!(!q.mark_state(2, MessageState::Timeout));
    assert!(q.mark_state(2, MessageState::Done));
    assert!(!q.mark_state(2, MessageState::Done));
    assert_eq!(q.len(), 2);
}
