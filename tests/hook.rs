use collab::crdt::{Document, UpdateTarget};
use collab::doc::DocStore;
use collab::plugin::{CollabPersistenceConfig, RocksdbDiskPlugin};
use yrs::updates::decoder::Decode;
use yrs::updates::encoder::Encode;
use yrs::{Doc, ReadTxn, StateVector, Text, Transact, Update};

struct YDoc(Doc);

impl UpdateTarget for YDoc {
    fn apply_update(&mut self, update: &[u8]) -> bool {
        match Update::decode_v1(update) {
            Ok(u) => self.0.transact_mut().apply_update(u).is_ok(),
            Err(_) => false,
        }
    }

    fn encode_state(&self) -> Vec<u8> {
        self.0.transact().encode_state_as_update_v1(&StateVector::default())
    }

    fn encode_state_vector(&self) -> Vec<u8> {
        self.0.transact().state_vector().encode_v1()
    }
}

fn new_doc(client: u64) -> Document<YDoc> {
    Document::new(YDoc(Doc::with_client_id(client)))
}

fn edit(doc: &Doc, index: u32, chunk: &str) -> Vec<u8> {
    let text = doc.get_or_insert_text("t");
    let mut txn = doc.transact_mut();
    text.insert(&mut txn, index, chunk);
    txn.encode_update_v1()
}

#[test]
fn hook_creates_then_persists_after_load() {
    let mut store = DocStore::new();
    let mut plugin = RocksdbDiskPlugin::new(1);
    let mut doc = new_doc(100);
    plugin.init(&mut store, b"o", &mut doc);
    assert!(store.is_exist(1, b"o"));

    let source = Doc::with_client_id(5);
    let u = edit(&source, 0, "z");
    plugin.receive_update(&mut store, b"o", &u);
    assert_eq!(store.number_of_updates(1, b"o"), 0);
    plugin.did_init();
    plugin.receive_update(&mut store, b"o", &u);
    assert_eq!(store.number_of_updates(1, b"o"), 1);
    assert_eq!(plugin.update_count, 1);

    let mut reopened = RocksdbDiskPlugin::new(1);
    let mut doc2 = new_doc(100);
    reopened.init(&mut store, b"o", &mut doc2);
    assert_eq!(reopened.initial_update_count, 1);

    let mut compacting =
        RocksdbDiskPlugin::new_with_config(1, CollabPersistenceConfig::new().flush_doc(true));
    let mut doc3 = new_doc(100);
    compacting.init(&mut store, b"o", &mut doc3);
    assert_eq!(compacting.initial_update_count, 0);
    assert_eq!(store.number_of_updates(1, b"o"), 0);
}

#[test]
fn config_builders() {
    let c = CollabPersistenceConfig::new();
    assert!(c.enable_snapshot);
    assert_eq!(c.snapshot_per_update, 100);
    assert!(!c.flush_doc);
    let c = c.enable_snapshot(false).snapshot_per_update(5).flush_doc(true);
    assert!(!c.enable_snapshot);
    assert_eq!(c.snapshot_per_update, 5);
    assert!(c.flush_doc);
    assert_eq!(CollabPersistenceConfig::default(), CollabPersistenceConfig::new());
}
