use collab::sink::{CollabSink, SinkAction, SinkConfig};
use collab::sync::{
    doc_init_state, init_state_from, notify, process_message, queue_init, HandlerOutcome,
    OutboundKind, OutboundMsg, ServerMessage, SyncError,
};
use yrs::sync::{Awareness, DefaultProtocol, Message, Protocol, SyncMessage};
use yrs::types::GetString;
use yrs::updates::encoder::Encode;
use yrs::{Doc, StateVector, Text, Transact};

fn sink() -> CollabSink<OutboundMsg> {
    CollabSink::new(SinkConfig::new())
}

fn handle(awareness: &mut Awareness, payload: &[u8]) -> HandlerOutcome {
    match DefaultProtocol.handle(awareness, payload) {
        Ok(replies) => HandlerOutcome::Replies(replies.into_iter().map(|m| m.encode_v1()).collect()),
        Err(_) => HandlerOutcome::Failed(Vec::new()),
    }
}

fn sent_kind(sink: &mut CollabSink<OutboundMsg>, now: u64) -> OutboundKind {
    match sink.poll(now) {
        SinkAction::Send(_) => sink.in_flight_msg().unwrap().kind,
        other => panic!("nothing sent: {:?}", other),
    }
}

#[test]
fn notify_queues_init_message_first() {
    let awareness = Awareness::new(Doc::with_client_id(1));
    let payload = doc_init_state(&awareness).unwrap();
    assert!(!payload.is_empty());
    let mut s = sink();
    s.queue_msg(0, OutboundMsg { kind: OutboundKind::ClientUpdate, payload: vec![1] }, false);
    assert_eq!(notify(&mut s, &awareness), Some(1));
    assert_eq!(sent_kind(&mut s, 0), OutboundKind::ClientInit);
    assert_eq!(s.in_flight_msg().unwrap().payload, payload);
}

#[test]
fn queue_init_needs_a_payload() {
    let mut s = sink();
    assert_eq!(queue_init(&mut s, None), None);
    assert_eq!(queue_init(&mut s, Some(Vec::new())), None);
    assert_eq!(queue_init(&mut s, Some(vec![7])), Some(0));
    assert_eq!(init_state_from(Some(Vec::new())), None);
    assert_eq!(init_state_from(Some(vec![1, 2])), Some(vec![1, 2]));
    assert_eq!(init_state_from(None), None);
}

#[test]
fn broadcast_step1_gets_a_reply_queued() {
    let mut awareness = Awareness::new(Doc::with_client_id(2));
    let mut s = sink();
    let step1 = Message::Sync(SyncMessage::SyncStep1(StateVector::default())).encode_v1();
    let outcome = handle(&mut awareness, &step1);
    let msg = ServerMessage::Broadcast { payload: step1 };
    assert_eq!(process_message(&mut s, msg, Some(outcome)), Ok(false));
    assert_eq!(sent_kind(&mut s, 0), OutboundKind::ClientUpdate);
}

#[test]
fn broadcast_update_is_merged_into_the_document() {
    let remote = Doc::with_client_id(3);
    let text = remote.get_or_insert_text("t");
    let update = {
        let mut txn = remote.transact_mut();
        text.insert(&mut txn, 0, "from server");
        txn.encode_update_v1()
    };
    let mut awareness = Awareness::new(Doc::with_client_id(4));
    let mut s = sink();
    let payload = Message::Sync(SyncMessage::Update(update)).encode_v1();
    let outcome = handle(&mut awareness, &payload);
    assert_eq!(process_message(&mut s, ServerMessage::Broadcast { payload }, Some(outcome)), Ok(false));
    let local = awareness.doc().get_or_insert_text("t");
    let txn = awareness.doc().transact();
    assert_eq!(local.get_string(&txn), "from server");
    assert_eq!(s.poll(0), SinkAction::Wait);
}

#[test]
fn ack_retires_in_flight_message() {
    let mut s = sink();
    let id = s.queue_msg(0, OutboundMsg { kind: OutboundKind::ClientUpdate, payload: vec![9] }, true).unwrap();
    assert_eq!(s.poll(0), SinkAction::Send(id));
    let ack = ServerMessage::Ack { msg_id: id, payload: None };
    assert_eq!(process_message(&mut s, ack, None), Ok(true));
    let again = ServerMessage::Ack { msg_id: id, payload: None };
    assert_eq!(process_message(&mut s, again, None), Ok(false));
    assert_eq!(s.poll(10), SinkAction::Wait);
}

#[test]
fn ack_with_undecodable_payload_is_still_recorded() {
    let mut s = sink();
    let id = s.queue_msg(0, OutboundMsg { kind: OutboundKind::ClientUpdate, payload: vec![9] }, true).unwrap();
    assert_eq!(s.poll(0), SinkAction::Send(id));
    let ack = ServerMessage::Ack { msg_id: id, payload: Some(vec![255]) };
    assert_eq!(process_message(&mut s, ack, Some(HandlerOutcome::Undecodable)), Ok(true));
    assert_eq!(s.poll(10), SinkAction::Wait);
}

#[test]
fn ack_with_rejected_payload_fails_before_the_ack() {
    let mut awareness = Awareness::new(Doc::with_client_id(7));
    let mut s = sink();
    let id = s.queue_msg(0, OutboundMsg { kind: OutboundKind::ClientUpdate, payload: vec![9] }, true).unwrap();
    assert_eq!(s.poll(0), SinkAction::Send(id));
    let bad = vec![9, 1, 0];
    let outcome = handle(&mut awareness, &bad);
    assert!(matches!(outcome, HandlerOutcome::Failed(_)));
    let ack = ServerMessage::Ack { msg_id: id, payload: Some(bad) };
    assert_eq!(process_message(&mut s, ack, Some(outcome)), Err(SyncError::Protocol));
    assert!(s.in_flight_msg().is_some());
    assert_eq!(s.poll(10), SinkAction::Resend(id));
}

#[test]
fn failed_broadcast_keeps_earlier_replies() {
    let mut s = sink();
    let msg = ServerMessage::Broadcast { payload: vec![1, 2, 3] };
    let outcome = HandlerOutcome::Failed(vec![vec![4, 5]]);
    assert_eq!(process_message(&mut s, msg, Some(outcome)), Err(SyncError::Protocol));
    assert_eq!(sent_kind(&mut s, 0), OutboundKind::ClientUpdate);
    assert_eq!(s.in_flight_msg().unwrap().payload, vec![4, 5]);
    let undecodable = ServerMessage::Broadcast { payload: vec![1] };
    assert_eq!(process_message(&mut s, undecodable, Some(HandlerOutcome::Undecodable)), Err(SyncError::Protocol));
}

#[test]
fn ack_payload_replies_are_queued_as_server_sync() {
    let mut awareness = Awareness::new(Doc::with_client_id(8));
    let mut s = sink();
    let step1 = Message::Sync(SyncMessage::SyncStep1(StateVector::default())).encode_v1();
    let outcome = handle(&mut awareness, &step1);
    let ack = ServerMessage::Ack { msg_id: 99, payload: Some(step1) };
    assert_eq!(process_message(&mut s, ack, Some(outcome)), Ok(false));
    assert_eq!(sent_kind(&mut s, 0), OutboundKind::ServerSync);
}

#[test]
fn empty_and_malformed_payloads() {
    let mut awareness = Awareness::new(Doc::with_client_id(6));
    let mut s = sink();
    let empty = ServerMessage::Broadcast { payload: Vec::new() };
    assert_eq!(process_message(&mut s, empty, None), Ok(false));
    let bad = vec![9, 1, 0];
    let outcome = handle(&mut awareness, &bad);
    let msg = ServerMessage::Broadcast { payload: bad };
    assert_eq!(process_message(&mut s, msg, Some(outcome)), Err(SyncError::Protocol));
    assert_eq!(s.poll(0), SinkAction::Wait);
}
