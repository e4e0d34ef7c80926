//! The disk sync hook: ties a document's life (attach, local commits) to the log store.
use vstd::prelude::*;

use crate::crdt::{Document, UpdateTarget};
use crate::doc::{
    assigned_id, doc_id_of, doc_log, flushed, ids_exhausted, lemma_flush_leaves_baseline, lemma_push_extends_log, loaded, next_clock, pushed, with_doc_id, with_doc_state, DocStore, KvMap, PersistenceError,
};
use crate::keys::{doc_state_key_spec, lemma_id_key_before_doc_keys, update_key_spec, Clock};
use crate::kv::without_range;

verus! {

/// How the hook persists a document.
#[derive(Debug, Clone, Copy, PartialEq, Eq, Structural)]
pub struct CollabPersistenceConfig {
    /// Take snapshots. Default is true.
    pub enable_snapshot: bool,
    /// Take a snapshot every N updates; N is greater than 0. Default is 100.
    pub snapshot_per_update: u32,
    /// Compact the document as soon as it has been loaded. Default is false.
    pub flush_doc: bool,
}

impl Default for CollabPersistenceConfig {
    fn default() -> (r: Self)
        ensures
            r.enable_snapshot,
            r.snapshot_per_update == 100,
            !r.flush_doc,
    {
        CollabPersistenceConfig { enable_snapshot: true, snapshot_per_update: 100, flush_doc: false }
    }
}

impl CollabPersistenceConfig {
    pub fn new() -> (r: Self)
        ensures
            r.enable_snapshot,
            r.snapshot_per_update == 100,
            !r.flush_doc,
    {
        CollabPersistenceConfig { enable_snapshot: true, snapshot_per_update: 100, flush_doc: false }
    }

    pub fn enable_snapshot(self, enable_snapshot: bool) -> (r: Self)
        ensures
            r == (CollabPersistenceConfig { enable_snapshot, ..self }),
    {
        CollabPersistenceConfig { enable_snapshot, ..self }
    }

    pub fn snapshot_per_update(self, snapshot_per_update: u32) -> (r: Self)
        requires
            snapshot_per_update > 0,
        ensures
            r == (CollabPersistenceConfig { snapshot_per_update, ..self }),
    {
        CollabPersistenceConfig { snapshot_per_update, ..self }
    }

    pub fn flush_doc(self, flush_doc: bool) -> (r: Self)
        ensures
            r == (CollabPersistenceConfig { flush_doc, ..self }),
    {
        CollabPersistenceConfig { flush_doc, ..self }
    }
}

/// The hook for one owner's documents. The store is handed to each hook point.
pub struct RocksdbDiskPlugin {
    pub uid: i64,
    /// Set once the initial load is done; commits before that are not persisted.
    pub did_load: bool,
    /// The number of updates on disk when the document was opened.
    pub initial_update_count: u32,
    /// The number of updates persisted since then.
    pub update_count: u32,
    pub config: CollabPersistenceConfig,
}

impl RocksdbDiskPlugin {
    pub fn new(uid: i64) -> (r: Self)
        ensures
            r.uid == uid,
            !r.did_load,
            r.initial_update_count == 0,
            r.update_count == 0,
            r.config == (CollabPersistenceConfig {
                enable_snapshot: true,
                snapshot_per_update: 100,
                flush_doc: false,
            }),
    {
        Self::new_with_config(uid, CollabPersistenceConfig::new())
    }

    pub fn new_with_config(uid: i64, config: CollabPersistenceConfig) -> (r: Self)
        ensures
            r.uid == uid,
            !r.did_load,
            r.initial_update_count == 0,
            r.update_count == 0,
            r.config == config,
    {
        RocksdbDiskPlugin { uid, did_load: false, initial_update_count: 0, update_count: 0, config }
    }

    /// Counts one more persisted update (wrapping) and returns the count before.
    fn increase_count(&mut self) -> (r: u32)
        ensures
            r == old(self).update_count,
            final(self).update_count == if old(self).update_count == u32::MAX {
                0
            } else {
                (old(self).update_count + 1) as u32
            },
            final(self).uid == old(self).uid,
            final(self).did_load == old(self).did_load,
            final(self).initial_update_count == old(self).initial_update_count,
            final(self).config == old(self).config,
    {
        let before = self.update_count;
        self.update_count = if before == u32::MAX {
            0
        } else {
            before + 1
        };
        before
    }

    /// Attaching to a document: a known document is replayed into `doc` (see
    /// `DocStore::load_doc`) and, when so configured, compacted; an unknown one is
    /// registered with `doc`'s current state. Failures leave the document in memory only.
    pub fn init<T: UpdateTarget>(&mut self, store: &mut DocStore, object_id: &[u8], doc: &mut Document<T>)
        requires
            old(store).wf(),
        ensures
            final(store).wf(),
            final(self).uid == old(self).uid,
            final(self).config == old(self).config,
            final(self).did_load == old(self).did_load,
            final(self).update_count == old(self).update_count,
            match doc_id_of(old(store)@, old(self).uid, object_id@) {
                Some(did) => {
                    &&& doc_id_of(final(store)@, old(self).uid, object_id@) == Some(did)
                    &&& !old(self).config.flush_doc ==> loaded(
                        old(store)@,
                        old(self).uid,
                        object_id@,
                        old(doc).view(),
                        final(store)@,
                        final(doc).view(),
                        Ok(final(self).initial_update_count),
                    )
                    &&& old(self).config.flush_doc ==> final(self).initial_update_count == 0
                        && doc_log(final(store)@, did).len() == 0 && exists|
                        m1: KvMap,
                        k: u32,
                        s: Seq<u8>,
                        v: Seq<u8>,
                    |
                        #![trigger loaded(old(store)@, old(self).uid, object_id@, old(doc).view(), m1, final(doc).view(), Ok::<u32, PersistenceError>(k)), flushed(m1, did, s, v)]
                        loaded(
                            old(store)@,
                            old(self).uid,
                            object_id@,
                            old(doc).view(),
                            m1,
                            final(doc).view(),
                            Ok(k),
                        ) && final(store)@ == flushed(m1, did, s, v)
                },
                None => {
                    &&& final(self).initial_update_count == old(self).initial_update_count
                    &&& final(doc).view() == old(doc).view()
                    &&& ids_exhausted(old(store)@, old(self).uid, object_id@) ==> final(store)@ == old(store)@
                    &&& !ids_exhausted(old(store)@, old(self).uid, object_id@) ==> exists|s: Seq<u8>, v: Seq<u8>|
                        final(store)@ == #[trigger] with_doc_state(
                            with_doc_id(old(store)@, old(self).uid, object_id@),
                            assigned_id(old(store)@, old(self).uid, object_id@),
                            s,
                            v,
                        )
                },
            },
    {
        let ghost m0 = store@;
        if store.is_exist(self.uid, object_id) {
            let ghost did = doc_id_of(m0, self.uid, object_id@)->Some_0;
            let res = store.load_doc(self.uid, object_id, doc);
            let count = match res {
                Ok(count) => count,
                Err(_) => 0,
            };
            self.initial_update_count = count;
            proof {
                let l = doc_log(m0, did);
                if m0.contains_key(doc_state_key_spec(did)) && count < l.len() {
                    lemma_id_key_before_doc_keys(self.uid, object_id@, did, l[count as int].0);
                }
            }
            assert(doc_id_of(store@, self.uid, object_id@) == Some(did));
            if self.config.flush_doc {
                let ghost m1 = store@;
                let flushed_ok = store.flush_doc(self.uid, object_id, doc).is_ok();
                self.initial_update_count = 0;
                proof {
                    assert(with_doc_id(m1, self.uid, object_id@) == m1);
                    let (s, v) = choose|s: Seq<u8>, v: Seq<u8>|
                        store@ == #[trigger] flushed(m1, did, s, v);
                    lemma_flush_leaves_baseline(m1, did, s, v);
                    lemma_id_key_before_doc_keys(self.uid, object_id@, did, 0);
                    assert(loaded(m0, self.uid, object_id@, old(doc).view(), m1, doc.view(), Ok::<u32, PersistenceError>(count)));
                }
            }
        } else {
            let _ = store.create_new_doc(self.uid, object_id, doc);
        }
    }

    /// The document finished loading: local commits are persisted from now on.
    pub fn did_init(&mut self)
        ensures
            final(self).did_load,
            final(self).uid == old(self).uid,
            final(self).initial_update_count == old(self).initial_update_count,
            final(self).update_count == old(self).update_count,
            final(self).config == old(self).config,
    {
        self.did_load = true;
    }

    /// A local commit produced `update`: append it to the document's log, once loading is
    /// done. A failure to persist leaves the update in memory only.
    pub fn receive_update(&mut self, store: &mut DocStore, object_id: &[u8], update: &[u8])
        requires
            old(store).wf(),
        ensures
            final(store).wf(),
            !old(self).did_load ==> *final(self) == *old(self) && final(store)@ == old(store)@,
            old(self).did_load ==> final(self).update_count == if old(self).update_count == u32::MAX {
                0
            } else {
                (old(self).update_count + 1) as u32
            },
            old(self).did_load ==> match doc_id_of(old(store)@, old(self).uid, object_id@) {
                None => final(store)@ == old(store)@,
                Some(did) => if next_clock(old(store)@, did) < Clock::MAX {
                    &&& final(store)@ == pushed(old(store)@, did, update@)
                    &&& doc_log(final(store)@, did) == doc_log(old(store)@, did).push(
                        (next_clock(old(store)@, did), update@),
                    )
                } else {
                    final(store)@ == old(store)@
                },
            },
    {
        if !self.did_load {
            return;
        }
        let _ = self.increase_count();
        let ghost m = store@;
        let _ = store.push_update(self.uid, object_id, update);
        proof {
            if let Some(did) = doc_id_of(m, self.uid, object_id@) {
                if next_clock(m, did) < Clock::MAX {
                    lemma_push_extends_log(m, did, update@);
                }
            }
        }
    }
}

} // verus!
