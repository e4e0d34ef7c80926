use collab::crdt::{Document, UpdateTarget};
use collab::doc::{DocStore, PersistenceError};
use collab::keys::{make_doc_state_key, make_doc_update_key};
use yrs::types::GetString;
use yrs::updates::decoder::Decode;
use yrs::updates::encoder::Encode;
use yrs::{Doc, ReadTxn, StateVector, Text, Transact, Update};

struct YDoc(Doc);

impl UpdateTarget for YDoc {
    fn apply_update(&mut self, update: &[u8]) -> bool {
        match Update::decode_v1(update) {
            Ok(u) => self.0.transact_mut().apply_update(u).is_ok(),
            Err(_) => false,
        }
    }

    fn encode_state(&self) -> Vec<u8> {
        self.0.transact().encode_state_as_update_v1(&StateVector::default())
    }

    fn encode_state_vector(&self) -> Vec<u8> {
        self.0.transact().state_vector().encode_v1()
    }
}

fn new_doc(client: u64) -> Document<YDoc> {
    Document::new(YDoc(Doc::with_client_id(client)))
}

fn edit(doc: &Doc, index: u32, chunk: &str) -> Vec<u8> {
    let text = doc.get_or_insert_text("t");
    let mut txn = doc.transact_mut();
    text.insert(&mut txn, index, chunk);
    txn.encode_update_v1()
}

fn text_of(doc: &Document<YDoc>) -> String {
    let text = doc.target().0.get_or_insert_text("t");
    let txn = doc.target().0.transact();
    text.get_string(&txn)
}

fn full_state(doc: &Doc) -> Vec<u8> {
    doc.transact().encode_state_as_update_v1(&StateVector::default())
}

#[test]
fn scenario_create_push_load_flush_delete() {
    let mut store = DocStore::new();
    let source = Doc::with_client_id(7);
    let u1 = edit(&source, 0, "hello");
    let u2 = edit(&source, 5, " world");

    let fresh = new_doc(100);
    store.create_new_doc(1, b"d", &fresh).unwrap();
    assert_eq!(store.get_doc_id(1, b"d"), Some(1));

    let k1 = store.push_update(1, b"d", &u1).unwrap();
    let k2 = store.push_update(1, b"d", &u2).unwrap();
    assert_eq!(k1, make_doc_update_key(1, 0));
    assert_eq!(k2, make_doc_update_key(1, 1));
    assert_eq!(store.number_of_updates(1, b"d"), 2);
    assert_eq!(store.get_doc_last_update_key(1, b"d"), Some(k2.clone()));

    let mut loaded = new_doc(100);
    assert_eq!(store.load_doc(1, b"d", &mut loaded), Ok(2));
    assert_eq!(text_of(&loaded), "hello world");

    store.flush_doc(1, b"d", &loaded).unwrap();
    assert_eq!(store.number_of_updates(1, b"d"), 0);
    assert_eq!(store.get_doc_last_update_key(1, b"d"), None);

    let mut again = new_doc(100);
    assert_eq!(store.load_doc(1, b"d", &mut again), Ok(0));
    assert_eq!(text_of(&again), "hello world");

    store.delete_doc(1, b"d");
    let mut gone = new_doc(100);
    assert_eq!(store.load_doc(1, b"d", &mut gone), Err(PersistenceError::DocumentNotExist));
    assert!(!store.is_exist(1, b"d"));
}

#[test]
fn corrupted_entry_truncates_log() {
    let mut store = DocStore::new();
    let source = Doc::with_client_id(3);
    let u0 = edit(&source, 0, "a");
    let u1 = edit(&source, 1, "b");
    let u3 = edit(&source, 2, "c");
    store.create_new_doc(5, b"x", &new_doc(100)).unwrap();
    store.push_update(5, b"x", &u0).unwrap();
    store.push_update(5, b"x", &u1).unwrap();
    store.push_update(5, b"x", &[255, 255, 255, 255]).unwrap();
    store.push_update(5, b"x", &u3).unwrap();
    assert_eq!(store.number_of_updates(5, b"x"), 4);

    let mut doc = new_doc(100);
    assert_eq!(store.load_doc(5, b"x", &mut doc), Ok(2));
    assert_eq!(text_of(&doc), "ab");
    assert_eq!(store.number_of_updates(5, b"x"), 2);
    assert_eq!(store.get_doc_last_update_key(5, b"x"), Some(make_doc_update_key(1, 1)));
}

#[test]
fn replay_equals_direct_application() {
    let source = Doc::with_client_id(11);
    let updates = vec![edit(&source, 0, "x"), edit(&source, 1, "yz"), edit(&source, 0, "w")];

    let mut store = DocStore::new();
    store.create_new_doc(2, b"r", &new_doc(100)).unwrap();
    for u in &updates {
        store.push_update(2, b"r", u).unwrap();
    }
    let mut replayed = new_doc(100);
    assert_eq!(store.load_doc(2, b"r", &mut replayed), Ok(3));

    let mut direct = new_doc(100);
    for u in &updates {
        assert!(direct.apply_update(u));
    }
    assert_eq!(text_of(&replayed), text_of(&direct));
    assert_eq!(text_of(&direct), "wxyz");
}

#[test]
fn flush_then_load_reproduces_state() {
    let source = Doc::with_client_id(21);
    edit(&source, 0, "compact me");
    let state = Document::new(YDoc(source));
    let mut store = DocStore::new();
    store.create_new_doc(9, b"c", &new_doc(100)).unwrap();
    store.push_update(9, b"c", b"ignored after flush").unwrap();
    store.flush_doc(9, b"c", &state).unwrap();
    let mut fresh = new_doc(100);
    assert_eq!(store.load_doc(9, b"c", &mut fresh), Ok(0));
    assert_eq!(text_of(&fresh), "compact me");
    assert_eq!(full_state(&fresh.target().0), full_state(&state.target().0));
}

#[test]
fn convergence_in_any_order_with_duplicates() {
    let a = Doc::with_client_id(1);
    let b = Doc::with_client_id(2);
    let ua = edit(&a, 0, "left");
    let ub = edit(&b, 0, "right");
    let ua2 = edit(&a, 4, "!");

    let mut one = new_doc(100);
    for u in [&ua, &ub, &ua2] {
        assert!(one.apply_update(u));
    }
    let mut two = new_doc(100);
    for u in [&ua2, &ub, &ub, &ua, &ua2] {
        assert!(two.apply_update(u));
    }
    assert_eq!(text_of(&one), text_of(&two));
    assert_eq!(text_of(&one).len(), "left!right".len());
}

#[test]
fn apply_rejects_bytes_that_do_not_decode() {
    let mut doc = new_doc(100);
    assert!(!doc.apply_update(&[255, 255, 255, 255]));
}

#[test]
fn unknown_document_errors() {
    let mut store = DocStore::new();
    assert_eq!(store.push_update(1, b"none", b"u"), Err(PersistenceError::DocumentNotExist));
    assert_eq!(store.number_of_updates(1, b"none"), 0);
    assert_eq!(store.get_doc_last_update_key(1, b"none"), None);
    assert!(store.get_encoded_updates(1, b"none").is_err());
    store.delete_doc(1, b"none");
    store.delete_updates_to(1, b"none", &make_doc_state_key(1));
}

#[test]
fn doc_ids_are_dense_and_stable() {
    let mut store = DocStore::new();
    assert_eq!(store.get_or_create_did(1, b"a"), Ok(1));
    assert_eq!(store.get_or_create_did(1, b"b"), Ok(2));
    assert_eq!(store.get_or_create_did(2, b"a"), Ok(3));
    assert_eq!(store.get_or_create_did(1, b"a"), Ok(1));
    store.delete_doc(1, b"a");
    assert_eq!(store.get_or_create_did(1, b"a"), Ok(4));
}

#[test]
fn delete_updates_to_prunes_prefix() {
    let mut store = DocStore::new();
    let source = Doc::with_client_id(4);
    let u0 = edit(&source, 0, "p");
    let u1 = edit(&source, 1, "q");
    let u2 = edit(&source, 2, "r");
    store.create_new_doc(1, b"p", &new_doc(100)).unwrap();
    store.push_update(1, b"p", &u0).unwrap();
    let k1 = store.push_update(1, b"p", &u1).unwrap();
    store.push_update(1, b"p", &u2).unwrap();
    store.delete_updates_to(1, b"p", &k1);
    assert_eq!(store.number_of_updates(1, b"p"), 2);
    assert_eq!(store.get_encoded_updates(1, b"p").unwrap(), vec![u1.clone(), u2.clone()]);
}

#[test]
fn enumerate_lists_object_ids() {
    let mut store = DocStore::new();
    store.create_new_doc(1, b"first", &new_doc(100)).unwrap();
    store.create_new_doc(2, b"second", &new_doc(100)).unwrap();
    let mut iter = store.get_all_docs();
    let mut names = Vec::new();
    while let Some(n) = iter.next() {
        names.push(n);
    }
    names.sort();
    assert_eq!(names, vec!["first".to_string(), "second".to_string()]);
    assert_eq!(iter.next(), None);
}

#[test]
fn explicit_state_is_written_exactly() {
    let mut store = DocStore::new();
    store.create_doc_with_state(3, b"s", vec![1, 2, 3], vec![4]).unwrap();
    store.push_update(3, b"s", b"u").unwrap();
    let did = store.get_doc_id(3, b"s").unwrap();
    assert_eq!(did, 1);
    store.flush_doc_with_state(3, b"s", vec![9, 9], vec![8]).unwrap();
    assert_eq!(store.number_of_updates(3, b"s"), 0);
    let mut d = Document::new(Recorder(Vec::new()));
    assert_eq!(store.load_doc(3, b"s", &mut d), Ok(0));
    assert_eq!(d.target().0, vec![vec![9, 9]]);
}

#[test]
fn pruning_stops_at_the_document_range() {
    let mut store = DocStore::new();
    store.create_doc_with_state(1, b"a", vec![0], vec![0]).unwrap();
    store.create_doc_with_state(1, b"b", vec![0], vec![0]).unwrap();
    store.push_update(1, b"a", b"x").unwrap();
    store.push_update(1, b"b", b"y").unwrap();
    store.delete_updates_to(1, b"a", &[255, 255]);
    assert_eq!(store.number_of_updates(1, b"a"), 0);
    assert_eq!(store.get_encoded_updates(1, b"b").unwrap(), vec![b"y".to_vec()]);
    assert_eq!(store.push_update(1, b"a", b"z").unwrap(), make_doc_update_key(1, 1));
}

#[test]
fn enumeration_is_in_key_order() {
    let mut store = DocStore::new();
    for name in ["zeta", "alpha", "mid"] {
        store.create_doc_with_state(1, name.as_bytes(), vec![0], vec![0]).unwrap();
    }
    let mut iter = store.get_all_docs();
    let mut names = Vec::new();
    while let Some(n) = iter.next() {
        names.push(n);
    }
    assert_eq!(names, vec!["alpha".to_string(), "mid".to_string(), "zeta".to_string()]);
}

struct Recorder(Vec<Vec<u8>>);

impl UpdateTarget for Recorder {
    fn apply_update(&mut self, update: &[u8]) -> bool {
        self.0.push(update.to_vec());
        true
    }

    fn encode_state(&self) -> Vec<u8> {
        Vec::new()
    }

    fn encode_state_vector(&self) -> Vec<u8> {
        Vec::new()
    }
}

#[test]
fn entries_round_trip_and_bad_entries_are_refused() {
    let mut store = DocStore::new();
    store.create_doc_with_state(1, b"a", vec![1], vec![2]).unwrap();
    store.push_update(1, b"a", b"u0").unwrap();
    store.push_update(1, b"a", b"u1").unwrap();
    let entries = store.entries();
    let mut back = DocStore::from_entries(entries.clone()).unwrap();
    assert_eq!(back.get_doc_id(1, b"a"), Some(1));
    assert_eq!(back.get_encoded_updates(1, b"a").unwrap(), vec![b"u0".to_vec(), b"u1".to_vec()]);
    assert_eq!(back.push_update(1, b"a", b"u2").unwrap(), make_doc_update_key(1, 2));
    let mut bad = entries.clone();
    bad.push((make_doc_update_key(1, 7), b"late".to_vec()));
    assert!(DocStore::from_entries(bad).is_none());
}
