//! The document log store: each document's baseline state, state vector and ordered
//! update log, laid out in a byte-keyed store by the key space of `keys`.
use vstd::prelude::*;

use crate::crdt::{Document, UpdateTarget};
use crate::keys::{
    be_bytes_u32, be_bytes_u64, be_u32, be_u64, clock_key_spec, counter_key_spec,
    doc_id_key_spec, doc_state_key_spec, lemma_be_u32_round_trip, lemma_be_u64_round_trip,
    make_clock_key, make_counter_key, make_doc_end_key, make_doc_id_key, make_doc_start_key,
    make_doc_state_key, make_doc_update_key, make_state_vector_key, read_be_u32, read_be_u64,
    state_vector_key_spec, u32_of_be, u64_of_be, update_key_spec, Clock, DocID,
};
use crate::kv::{without_range, MemKv};
use crate::keys::{lemma_update_key_of_shape, lemma_be_u64_of_bytes, is_id_key, is_update_key, key_clock, key_doc, lemma_key_shapes, read_be_u32_at, read_be_u64_at, key_lt, lemma_lex_irrefl, lemma_lex_total, lemma_lex_trans, lemma_doc_keys_injective, lemma_other_doc_outside_range, lemma_lex_prefix_then_greater, lex_lt_from, lemma_id_key_before_doc_keys, lemma_lex_prefix_then_smaller, doc_key_prefix, lemma_update_key_in_doc_range, lemma_update_key_order, lex_lt, doc_key_name, doc_name_from_key, in_key_range, make_id_space_end, make_id_space_start, id_space_end_spec, id_space_start_spec};

verus! {

/// What the log store reports to its callers.
#[derive(Debug, Clone, Copy, PartialEq, Eq, Structural)]
pub enum PersistenceError {
    /// No DocID is mapped to the (owner, object id) pair.
    DocumentNotExist,
    /// A stored update could not be decoded.
    Codec,
    /// The DocID counter or a document's clock has reached its largest value.
    IdSpaceExhausted,
}

/// The contents of a byte-keyed store.
pub type KvMap = Map<Seq<u8>, Seq<u8>>;

/// The DocID mapped to (owner, object id), if any.
pub open spec fn doc_id_of(m: KvMap, uid: i64, oid: Seq<u8>) -> Option<DocID> {
    let k = doc_id_key_spec(uid, oid);
    if m.contains_key(k) && m[k].len() == 8 {
        Some(u64_of_be(m[k]))
    } else {
        None
    }
}

/// The DocID that the next new document receives.
pub open spec fn next_doc_id(m: KvMap) -> DocID {
    let k = counter_key_spec();
    if m.contains_key(k) && m[k].len() == 8 {
        u64_of_be(m[k])
    } else {
        1
    }
}

/// The clock that a document's next update receives.
pub open spec fn next_clock(m: KvMap, did: DocID) -> Clock {
    let k = clock_key_spec(did);
    if m.contains_key(k) && m[k].len() == 4 {
        u32_of_be(m[k])
    } else {
        0
    }
}

/// The update entries of a document at clocks below `n`, in clock order.
pub open spec fn log_upto(m: KvMap, did: DocID, n: nat) -> Seq<(Clock, Seq<u8>)>
    decreases n,
{
    if n == 0 {
        Seq::empty()
    } else {
        let p = log_upto(m, did, (n - 1) as nat);
        let k = update_key_spec(did, (n - 1) as Clock);
        if m.contains_key(k) {
            p.push(((n - 1) as Clock, m[k]))
        } else {
            p
        }
    }
}

/// A document's update log, in clock order.
pub open spec fn doc_log(m: KvMap, did: DocID) -> Seq<(Clock, Seq<u8>)> {
    log_upto(m, did, next_clock(m, did) as nat)
}

/// The record a document keeps of log entries that it accepted, in order.
pub open spec fn accepted(l: Seq<(Clock, Seq<u8>)>) -> Seq<(Seq<u8>, bool)> {
    l.map_values(|e: (Clock, Seq<u8>)| (e.1, true))
}

/// The DocID that `get_or_create_did` settles on.
pub open spec fn assigned_id(m: KvMap, uid: i64, oid: Seq<u8>) -> DocID {
    match doc_id_of(m, uid, oid) {
        Some(did) => did,
        None => next_doc_id(m),
    }
}

/// Whether `get_or_create_did` fails: the object is new and no DocID is left.
pub open spec fn ids_exhausted(m: KvMap, uid: i64, oid: Seq<u8>) -> bool {
    doc_id_of(m, uid, oid) is None && next_doc_id(m) == u64::MAX
}

/// The store after `get_or_create_did` succeeded.
pub open spec fn with_doc_id(m: KvMap, uid: i64, oid: Seq<u8>) -> KvMap {
    match doc_id_of(m, uid, oid) {
        Some(_) => m,
        None => m.insert(doc_id_key_spec(uid, oid), be_u64(next_doc_id(m))).insert(
            counter_key_spec(),
            be_u64((next_doc_id(m) + 1) as u64),
        ),
    }
}

/// `n` is the object id of some id-mapping entry of the store.
pub open spec fn is_doc_name(m: KvMap, n: Seq<u8>) -> bool {
    exists|k: Seq<u8>|
        m.contains_key(k) && in_key_range(k, id_space_start_spec(), id_space_end_spec()) && n
            == #[trigger] doc_key_name(k)
}

/// What replaying document (`uid`, `oid`) from store `m` into a document that had received
/// `d0` does: the store becomes `m2`, the document has received `d2`, the result is `r`.
pub open spec fn loaded(
    m: KvMap,
    uid: i64,
    oid: Seq<u8>,
    d0: Seq<(Seq<u8>, bool)>,
    m2: KvMap,
    d2: Seq<(Seq<u8>, bool)>,
    r: Result<u32, PersistenceError>,
) -> bool {
    match doc_id_of(m, uid, oid) {
        None => r == Err::<u32, PersistenceError>(PersistenceError::DocumentNotExist)
            && m2 == m && d2 == d0,
        Some(did) => {

            let sk = doc_state_key_spec(did);
            let l = doc_log(m, did);
            r is Ok && if !m.contains_key(sk) {
                r->Ok_0 == 0 && m2 == m && d2 == d0
            } else {
                let k = r->Ok_0 as int;
                &&& k <= l.len()
                &&& exists|b: bool|
                    d2 == d0.push((m[sk], b)) + accepted(l.take(k)) + if k
                        < l.len() {
                        seq![(l[k].1, false)]
                    } else {
                        Seq::empty()
                    }
                &&& k < l.len() ==> m2 == without_range(
                    m,
                    update_key_spec(did, l[k].0),
                    update_key_spec(did, Clock::MAX),
                )
                &&& k == l.len() ==> m2 == m
            }
        },
    }
}

/// The store after compaction of document `did` with baseline `s` and state vector `v`.
pub open spec fn flushed(m: KvMap, did: DocID, s: Seq<u8>, v: Seq<u8>) -> KvMap {
    without_range(with_doc_state(m, did, s, v), update_key_spec(did, 0), update_key_spec(did, Clock::MAX))
}

/// The store with a document's baseline state `s` and state vector `v` written.
pub open spec fn with_doc_state(m: KvMap, did: DocID, s: Seq<u8>, v: Seq<u8>) -> KvMap {
    m.insert(doc_state_key_spec(did), s).insert(state_vector_key_spec(did), v)
}

/// The store after a document's id mapping and all its entries are gone.
pub open spec fn without_doc(m: KvMap, uid: i64, oid: Seq<u8>, did: DocID) -> KvMap {
    without_range(m.remove(doc_id_key_spec(uid, oid)), update_key_spec(did, 0), update_key_spec(did, Clock::MAX))
        .remove(doc_state_key_spec(did)).remove(state_vector_key_spec(did)).remove(clock_key_spec(did))
}

/// The log up to an earlier clock is a prefix of the log up to a later one.
proof fn lemma_log_prefix(m: KvMap, did: DocID, c: nat, n: nat)
    requires
        c <= n,
    ensures
        log_upto(m, did, c).len() <= log_upto(m, did, n).len(),
        forall|i: int|
            0 <= i < log_upto(m, did, c).len() ==> #[trigger] log_upto(m, did, n)[i] == log_upto(m, did, c)[i],
    decreases n,
{
    if c < n {
        lemma_log_prefix(m, did, c, (n - 1) as nat);
    }
}

/// The ordered store of documents.
pub struct DocStore {
    kv: MemKv,
}

impl View for DocStore {
    type V = KvMap;

    closed spec fn view(&self) -> KvMap {
        self.kv@
    }
}

impl DocStore {
    /// The underlying store is well formed.
    pub closed spec fn wf(&self) -> bool {
        self.kv.wf() && store_inv(self.kv@)
    }

    /// A well-formed store satisfies the store invariant.
    pub proof fn lemma_wf_inv(&self)
        requires
            self.wf(),
        ensures
            store_inv(self@),
    {
    }

    /// An empty store.
    pub fn new() -> (r: Self)
        ensures
            r.wf(),
            r@ == KvMap::empty(),
    {
        let r = DocStore { kv: MemKv::new() };
        assert(store_inv(r@));
        r
    }

    /// The DocID mapped to (uid, object id), if any.
    pub fn get_doc_id(&self, uid: i64, object_id: &[u8]) -> (r: Option<DocID>)
        requires
            self.wf(),
        ensures
            r == doc_id_of(self@, uid, object_id@),
    {
        let key = make_doc_id_key(uid, object_id);
        match self.kv.get(key.as_slice()) {
            Some(v) => {
                if v.len() == 8 {
                    Some(read_be_u64(v.as_slice()))
                } else {
                    None
                }
            },
            None => None,
        }
    }

    fn next_doc_id(&self) -> (r: DocID)
        requires
            self.kv.wf(),
        ensures
            r == next_doc_id(self@),
    {
        let key = make_counter_key();
        match self.kv.get(key.as_slice()) {
            Some(v) => {
                if v.len() == 8 {
                    read_be_u64(v.as_slice())
                } else {
                    1
                }
            },
            None => 1,
        }
    }

    fn next_clock(&self, did: DocID) -> (r: Clock)
        requires
            self.kv.wf(),
        ensures
            r == next_clock(self@, did),
    {
        let key = make_clock_key(did);
        match self.kv.get(key.as_slice()) {
            Some(v) => {
                if v.len() == 4 {
                    read_be_u32(v.as_slice())
                } else {
                    0
                }
            },
            None => 0,
        }
    }

    /// The DocID of (uid, object id), handing out the next one if there is none yet.
    pub fn get_or_create_did(&mut self, uid: i64, object_id: &[u8]) -> (r: Result<DocID, PersistenceError>)
        requires
            old(self).wf(),
        ensures
            final(self).wf(),
            ids_exhausted(old(self)@, uid, object_id@) ==> r == Err::<DocID, PersistenceError>(
                PersistenceError::IdSpaceExhausted,
            ) && final(self)@ == old(self)@,
            !ids_exhausted(old(self)@, uid, object_id@) ==> r == Ok::<DocID, PersistenceError>(
                assigned_id(old(self)@, uid, object_id@),
            ) && final(self)@ == with_doc_id(old(self)@, uid, object_id@),
            r is Ok ==> doc_id_of(final(self)@, uid, object_id@) == Some(r->Ok_0),
            r is Ok && doc_id_of(old(self)@, uid, object_id@) is None ==> forall|u: i64, o: Seq<u8>|
                #[trigger] doc_id_of(old(self)@, u, o) is Some ==> doc_id_of(old(self)@, u, o)->Some_0
                    != r->Ok_0,
    {
        match self.get_doc_id(uid, object_id) {
            Some(did) => Ok(did),
            None => {
                let did = self.next_doc_id();
                if did == u64::MAX {
                    return Err(PersistenceError::IdSpaceExhausted);
                }
                let ghost m0 = self@;
                let key = make_doc_id_key(uid, object_id);
                let ghost k = key@;
                self.kv.insert(key, be_bytes_u64(did));
                self.kv.insert(make_counter_key(), be_bytes_u64(did + 1));
                proof {
                    lemma_be_u64_round_trip(did);
                    assert(k != counter_key_spec()) by {
                        assert(k.len() != counter_key_spec().len());
                    }
                    lemma_inv_new_id(m0, uid, object_id@);
                }
                Ok(did)
            },
        }
    }

    /// Whether a DocID is mapped to (uid, object id).
    pub fn is_exist(&self, uid: i64, object_id: &[u8]) -> (r: bool)
        requires
            self.wf(),
        ensures
            r == doc_id_of(self@, uid, object_id@) is Some,
    {
        self.get_doc_id(uid, object_id).is_some()
    }
    /// Appends `update` at the document's next clock and returns the key it was stored under.
    pub fn push_update(&mut self, uid: i64, object_id: &[u8], update: &[u8]) -> (r: Result<
        Vec<u8>,
        PersistenceError,
    >)
        requires
            old(self).wf(),
        ensures
            final(self).wf(),
            match doc_id_of(old(self)@, uid, object_id@) {
                None => r == Err::<Vec<u8>, PersistenceError>(PersistenceError::DocumentNotExist)
                    && final(self)@ == old(self)@,
                Some(did) => {
                    let c = next_clock(old(self)@, did);
                    if c == Clock::MAX {
                        r == Err::<Vec<u8>, PersistenceError>(PersistenceError::IdSpaceExhausted)
                            && final(self)@ == old(self)@
                    } else {
                        &&& !old(self)@.contains_key(update_key_spec(did, c))
                        &&& forall|c2: Clock| #[trigger] old(self)@.contains_key(update_key_spec(did, c2)) ==> c2 < c
                        &&& r is Ok && r->Ok_0@ == update_key_spec(did, c) && final(self)@ == old(
                            self,
                        )@.insert(update_key_spec(did, c), update@).insert(
                            clock_key_spec(did),
                            be_u32((c + 1) as u32),
                        )
                    }
                },
            },
    {
        match self.get_doc_id(uid, object_id) {
            None => Err(PersistenceError::DocumentNotExist),
            Some(did) => {
                let c = self.next_clock(did);
                if c == Clock::MAX {
                    return Err(PersistenceError::IdSpaceExhausted);
                }
                let key = make_doc_update_key(did, c);
                let mut value: Vec<u8> = Vec::new();
                let mut i: usize = 0;
                while i < update.len()
                    invariant
                        i <= update@.len(),
                        value@ == update@.subrange(0, i as int),
                    decreases update@.len() - i,
                {
                    value.push(update[i]);
                    i = i + 1;
                    assert(value@ =~= update@.subrange(0, i as int));
                }
                assert(value@ =~= update@);
                self.kv.insert(key.clone(), value);
                self.kv.insert(make_clock_key(did), be_bytes_u32(c + 1));
                proof {
                    lemma_inv_push(old(self)@, did, update@);
                }
                Ok(key)
            },
        }
    }

    /// Replays the document into `doc`: its baseline state, then its update log in clock
    /// order. The first update that `doc` does not accept is removed from the log together
    /// with every later one, and replay stops there. Returns how many updates were accepted.
    /// A document without a stored baseline replays nothing.
    pub fn load_doc<T: UpdateTarget>(&mut self, uid: i64, object_id: &[u8], doc: &mut Document<T>) -> (r: Result<
        u32,
        PersistenceError,
    >)
        requires
            old(self).wf(),
        ensures
            final(self).wf(),
            loaded(old(self)@, uid, object_id@, old(doc).view(), final(self)@, final(doc).view(), r),
    {
        let did = match self.get_doc_id(uid, object_id) {
            None => return Err(PersistenceError::DocumentNotExist),
            Some(did) => did,
        };
        let ghost m = self@;
        let ghost d0 = doc.view();
        let state = match self.kv.get(make_doc_state_key(did).as_slice()) {
            None => return Ok(0),
            Some(state) => state,
        };
        let _ = doc.apply_update(state.as_slice());
        let ghost d1 = doc.view();
        assert(d1 == d0.push((m[doc_state_key_spec(did)], d1.last().1)));
        let n = self.next_clock(did);
        let end = make_doc_end_key(did);
        let mut count: u32 = 0;
        let mut c: u32 = 0;
        while c < n
            invariant
                self.wf(),
                self@ == m,
                c <= n,
                n == next_clock(m, did),
                doc_id_of(m, uid, object_id@) == Some(did),
                end@ == update_key_spec(did, Clock::MAX),
                count as int == log_upto(m, did, c as nat).len(),
                count <= c,
                doc.view() == d1 + accepted(log_upto(m, did, c as nat)),
                m.contains_key(doc_state_key_spec(did)),
                d1 == d0.push((m[doc_state_key_spec(did)], d1.last().1)),
                d0 == old(doc)@,
                m == old(self)@,
            decreases n - c,
        {
            let key = make_doc_update_key(did, c);
            match self.kv.get(key.as_slice()) {
                None => {
                    assert(log_upto(m, did, (c + 1) as nat) == log_upto(m, did, c as nat));
                },
                Some(v) => {
                    let ghost p = log_upto(m, did, c as nat);
                    assert(log_upto(m, did, (c + 1) as nat) == p.push((c, v@)));
                    let res = doc.apply_update(v.as_slice());
                    match res {
                        true => {
                            assert(accepted(p.push((c, v@))) =~= accepted(p).push((v@, true)));
                            count = count + 1;
                        },
                        false => {
                            self.kv.remove_range(key.as_slice(), end.as_slice());
                            proof {
                                lemma_later_range_in_doc_range(did, c);
                                lemma_inv_prune(m, did, key@, end@);
                            }
                            proof {
                                lemma_log_prefix(m, did, (c + 1) as nat, n as nat);
                                let l = doc_log(m, did);
                                assert(l[count as int] == (c, v@));
                                assert(l.take(count as int) =~= p);
                                let sk = doc_state_key_spec(did);
                                assert(d1 == d0.push((m[sk], d1.last().1)));
                                assert(doc.view() =~= d0.push((m[sk], d1.last().1)) + accepted(l.take(count as int))
                                    + seq![(l[count as int].1, false)]);
                                assert(count < l.len());
                                let k = count as int;
                                let b = d1.last().1;
                                assert(doc.view() == old(doc)@.push((m[sk], b)) + accepted(l.take(k)) + if k
                                    < l.len() {
                                    seq![(l[k].1, false)]
                                } else {
                                    Seq::empty()
                                });
                                assert(self@ == without_range(m, update_key_spec(did, l[k].0), update_key_spec(did, Clock::MAX)));
                            }
                            return Ok(count);
                        },
                    }
                },
            }
            c = c + 1;
        }
        proof {
            let l = doc_log(m, did);
            assert(l.take(count as int) =~= l);
            assert(doc.view() == d0.push((m[doc_state_key_spec(did)], d1.last().1)) + accepted(l.take(count as int)) + Seq::<(Seq<u8>, bool)>::empty());
        }
        Ok(count)
    }
    /// Registers document (`uid`, `object_id`) with exactly `state` as its baseline and
    /// `state_vector` as its state vector, settling its DocID first.
    pub fn create_doc_with_state(
        &mut self,
        uid: i64,
        object_id: &[u8],
        state: Vec<u8>,
        state_vector: Vec<u8>,
    ) -> (r: Result<(), PersistenceError>)
        requires
            old(self).wf(),
        ensures
            final(self).wf(),
            ids_exhausted(old(self)@, uid, object_id@) ==> r == Err::<(), PersistenceError>(
                PersistenceError::IdSpaceExhausted,
            ) && final(self)@ == old(self)@,
            !ids_exhausted(old(self)@, uid, object_id@) ==> r is Ok && final(self)@ == with_doc_state(
                with_doc_id(old(self)@, uid, object_id@),
                assigned_id(old(self)@, uid, object_id@),
                state@,
                state_vector@,
            ),
            r is Ok ==> doc_id_of(final(self)@, uid, object_id@) == Some(assigned_id(old(self)@, uid, object_id@)),
    {
        let did = self.get_or_create_did(uid, object_id)?;
        let ghost m1 = self@;
        self.kv.insert(make_doc_state_key(did), state);
        self.kv.insert(make_state_vector_key(did), state_vector);
        proof {
            lemma_id_key_before_doc_keys(uid, object_id@, did, 0);
            lemma_inv_doc_state(m1, did, state@, state_vector@);
        }
        Ok(())
    }

    /// Compaction with given bytes: writes exactly `state` as the baseline and
    /// `state_vector` as the state vector, then removes the whole update log.
    pub fn flush_doc_with_state(
        &mut self,
        uid: i64,
        object_id: &[u8],
        state: Vec<u8>,
        state_vector: Vec<u8>,
    ) -> (r: Result<(), PersistenceError>)
        requires
            old(self).wf(),
        ensures
            final(self).wf(),
            ids_exhausted(old(self)@, uid, object_id@) ==> r == Err::<(), PersistenceError>(
                PersistenceError::IdSpaceExhausted,
            ) && final(self)@ == old(self)@,
            !ids_exhausted(old(self)@, uid, object_id@) ==> r is Ok && final(self)@ == flushed(
                with_doc_id(old(self)@, uid, object_id@),
                assigned_id(old(self)@, uid, object_id@),
                state@,
                state_vector@,
            ),
            r is Ok ==> doc_id_of(final(self)@, uid, object_id@) == Some(assigned_id(old(self)@, uid, object_id@)),
    {
        let did = self.get_or_create_did(uid, object_id)?;
        let ghost m1 = self@;
        self.kv.insert(make_doc_state_key(did), state);
        self.kv.insert(make_state_vector_key(did), state_vector);
        let start = make_doc_start_key(did);
        let end = make_doc_end_key(did);
        self.kv.remove_range(start.as_slice(), end.as_slice());
        proof {
            lemma_id_key_before_doc_keys(uid, object_id@, did, 0);
            lemma_inv_doc_state(m1, did, state@, state_vector@);
            lemma_inv_prune(with_doc_state(m1, did, state@, state_vector@), did, start@, end@);
        }
        Ok(())
    }

    /// Registers a document with its current state as baseline (see `create_doc_with_state`).
    pub fn create_new_doc<T: UpdateTarget>(&mut self, uid: i64, object_id: &[u8], doc: &Document<T>) -> (r: Result<
        (),
        PersistenceError,
    >)
        requires
            old(self).wf(),
        ensures
            final(self).wf(),
            ids_exhausted(old(self)@, uid, object_id@) ==> r == Err::<(), PersistenceError>(
                PersistenceError::IdSpaceExhausted,
            ) && final(self)@ == old(self)@,
            !ids_exhausted(old(self)@, uid, object_id@) ==> r is Ok && exists|s: Seq<u8>, v: Seq<u8>|
                final(self)@ == #[trigger] with_doc_state(
                    with_doc_id(old(self)@, uid, object_id@),
                    assigned_id(old(self)@, uid, object_id@),
                    s,
                    v,
                ),
            r is Ok ==> doc_id_of(final(self)@, uid, object_id@) == Some(assigned_id(old(self)@, uid, object_id@)),
    {
        self.create_doc_with_state(uid, object_id, doc.encode_state(), doc.encode_state_vector())
    }

    /// Compaction with the document's current state (see `flush_doc_with_state`).
    pub fn flush_doc<T: UpdateTarget>(&mut self, uid: i64, object_id: &[u8], doc: &Document<T>) -> (r: Result<
        (),
        PersistenceError,
    >)
        requires
            old(self).wf(),
        ensures
            final(self).wf(),
            ids_exhausted(old(self)@, uid, object_id@) ==> r == Err::<(), PersistenceError>(
                PersistenceError::IdSpaceExhausted,
            ) && final(self)@ == old(self)@,
            !ids_exhausted(old(self)@, uid, object_id@) ==> r is Ok && exists|s: Seq<u8>, v: Seq<u8>|
                final(self)@ == #[trigger] flushed(
                    with_doc_id(old(self)@, uid, object_id@),
                    assigned_id(old(self)@, uid, object_id@),
                    s,
                    v,
                ),
            r is Ok ==> doc_id_of(final(self)@, uid, object_id@) == Some(assigned_id(old(self)@, uid, object_id@)),
    {
        let state = doc.encode_state();
        let sv = doc.encode_state_vector();
        let ghost (s, v) = (state@, sv@);
        let r = self.flush_doc_with_state(uid, object_id, state, sv);
        proof {
            if r is Ok {
                assert(self@ == flushed(with_doc_id(old(self)@, uid, object_id@), assigned_id(old(self)@, uid, object_id@), s, v));
            }
        }
        r
    }

    /// Removes the document: its id mapping, update log, baseline, state vector and clock.
    /// Does nothing for a document that does not exist.
    pub fn delete_doc(&mut self, uid: i64, object_id: &[u8])
        requires
            old(self).wf(),
        ensures
            final(self).wf(),
            match doc_id_of(old(self)@, uid, object_id@) {
                None => final(self)@ == old(self)@,
                Some(did) => final(self)@ == without_doc(old(self)@, uid, object_id@, did),
            },
    {
        if let Some(did) = self.get_doc_id(uid, object_id) {
            let key = make_doc_id_key(uid, object_id);
            self.kv.remove(key.as_slice());
            let start = make_doc_start_key(did);
            let end = make_doc_end_key(did);
            self.kv.remove_range(start.as_slice(), end.as_slice());
            self.kv.remove(make_doc_state_key(did).as_slice());
            self.kv.remove(make_state_vector_key(did).as_slice());
            self.kv.remove(make_clock_key(did).as_slice());
            proof {
                lemma_inv_delete(old(self)@, uid, object_id@, did);
            }
        }
    }

    /// Prunes the document's update log: removes its entries from the first update key up to
    /// `end` (excluded), or up to the end of its update range when `end` lies beyond it.
    pub fn delete_updates_to(&mut self, uid: i64, object_id: &[u8], end: &[u8])
        requires
            old(self).wf(),
        ensures
            final(self).wf(),
            match doc_id_of(old(self)@, uid, object_id@) {
                None => final(self)@ == old(self)@,
                Some(did) => final(self)@ == without_range(
                    old(self)@,
                    update_key_spec(did, 0),
                    if lex_lt(end@, update_key_spec(did, Clock::MAX)) {
                        end@
                    } else {
                        update_key_spec(did, Clock::MAX)
                    },
                ),
            },
    {
        if let Some(did) = self.get_doc_id(uid, object_id) {
            let start = make_doc_start_key(did);
            let doc_end = make_doc_end_key(did);
            if key_lt(end, doc_end.as_slice()) {
                self.kv.remove_range(start.as_slice(), end);
                proof {
                    assert forall|k: Seq<u8>| #[trigger] in_key_range(k, start@, end@) implies in_key_range(
                        k,
                        update_key_spec(did, 0),
                        update_key_spec(did, Clock::MAX),
                    ) by {
                        lemma_lex_trans(k, end@, doc_end@);
                    }
                    lemma_inv_prune(old(self)@, did, start@, end@);
                }
            } else {
                self.kv.remove_range(start.as_slice(), doc_end.as_slice());
                proof {
                    lemma_inv_prune(old(self)@, did, start@, doc_end@);
                }
            }
        }
    }

    /// The number of entries in the document's update log; 0 for an unknown document.
    pub fn number_of_updates(&self, uid: i64, object_id: &[u8]) -> (r: usize)
        requires
            self.wf(),
        ensures
            match doc_id_of(self@, uid, object_id@) {
                None => r == 0,
                Some(did) => r == doc_log(self@, did).len(),
            },
    {
        match self.get_doc_id(uid, object_id) {
            None => 0,
            Some(did) => {
                let n = self.next_clock(did);
                let mut count: u32 = 0;
                let mut c: u32 = 0;
                while c < n
                    invariant
                        self.wf(),
                        c <= n,
                        n == next_clock(self@, did),
                        count <= c,
                        count as int == log_upto(self@, did, c as nat).len(),
                    decreases n - c,
                {
                    if self.kv.contains(make_doc_update_key(did, c).as_slice()) {
                        count = count + 1;
                    }
                    c = c + 1;
                }
                count as usize
            },
        }
    }

    /// The key of the last entry of the document's update log, if there is one.
    pub fn get_doc_last_update_key(&self, uid: i64, object_id: &[u8]) -> (r: Option<Vec<u8>>)
        requires
            self.wf(),
        ensures
            match doc_id_of(self@, uid, object_id@) {
                None => r is None,
                Some(did) => {
                    let l = doc_log(self@, did);
                    if l.len() == 0 {
                        r is None
                    } else {
                        r is Some && r->Some_0@ == update_key_spec(did, l.last().0)
                    }
                },
            },
    {
        match self.get_doc_id(uid, object_id) {
            None => None,
            Some(did) => {
                let n = self.next_clock(did);
                let mut last: Option<u32> = None;
                let mut c: u32 = 0;
                while c < n
                    invariant
                        self.wf(),
                        c <= n,
                        n == next_clock(self@, did),
                        log_upto(self@, did, c as nat).len() == 0 ==> last is None,
                        log_upto(self@, did, c as nat).len() > 0 ==> last == Some(
                            log_upto(self@, did, c as nat).last().0,
                        ),
                    decreases n - c,
                {
                    if self.kv.contains(make_doc_update_key(did, c).as_slice()) {
                        last = Some(c);
                    }
                    c = c + 1;
                }
                match last {
                    None => None,
                    Some(c) => Some(make_doc_update_key(did, c)),
                }
            },
        }
    }

    /// The document's update log, in clock order.
    pub fn get_encoded_updates(&self, uid: i64, object_id: &[u8]) -> (r: Result<
        Vec<Vec<u8>>,
        PersistenceError,
    >)
        requires
            self.wf(),
        ensures
            match doc_id_of(self@, uid, object_id@) {
                None => r == Err::<Vec<Vec<u8>>, PersistenceError>(PersistenceError::DocumentNotExist),
                Some(did) => r is Ok && r->Ok_0@.map_values(|v: Vec<u8>| v@) == log_values(doc_log(self@, did)),
            },
    {
        match self.get_doc_id(uid, object_id) {
            None => Err(PersistenceError::DocumentNotExist),
            Some(did) => {
                let n = self.next_clock(did);
                let mut out: Vec<Vec<u8>> = Vec::new();
                let mut c: u32 = 0;
                while c < n
                    invariant
                        self.wf(),
                        c <= n,
                        n == next_clock(self@, did),
                        out@.map_values(|v: Vec<u8>| v@) == log_values(log_upto(self@, did, c as nat)),
                        doc_id_of(self@, uid, object_id@) == Some(did),
                    decreases n - c,
                {
                    let ghost before = out@;
                    if let Some(v) = self.kv.get(make_doc_update_key(did, c).as_slice()) {
                        let ghost vv = v@;
                        out.push(v);
                        let ghost p = log_upto(self@, did, c as nat);
                        assert(log_upto(self@, did, (c + 1) as nat) == p.push((c, vv)));
                        assert(log_values(p.push((c, vv))) =~= log_values(p).push(vv));
                        assert(out@.map_values(|v: Vec<u8>| v@) =~= before.map_values(|v: Vec<u8>| v@).push(vv));
                        assert(out@.map_values(|v: Vec<u8>| v@) =~= log_values(log_upto(self@, did, (c + 1) as nat)));
                    } else {
                        assert(log_upto(self@, did, (c + 1) as nat) == log_upto(self@, did, c as nat));
                    }
                    c = c + 1;
                }
                Ok(out)
            },
        }
    }

    /// The object ids of all documents, one per id-mapping entry, in key order.
    pub fn get_all_docs(&self) -> (r: NameIter)
        requires
            self.wf(),
        ensures
            r.pos() == 0,
            r.keys().len() == r.names().len(),
            forall|j: int|
                0 <= j < r.keys().len() ==> self@.contains_key(#[trigger] r.keys()[j]) && in_key_range(
                    r.keys()[j],
                    id_space_start_spec(),
                    id_space_end_spec(),
                ) && r.names()[j] == doc_key_name(r.keys()[j]),
            forall|a: int, b: int| 0 <= a < b < r.keys().len() ==> lex_lt(r.keys()[a], r.keys()[b]),
            forall|k: Seq<u8>|
                #[trigger] self@.contains_key(k) && in_key_range(k, id_space_start_spec(), id_space_end_spec())
                    ==> exists|j: int| 0 <= j < r.keys().len() && r.keys()[j] == k,
            forall|j: int| 0 <= j < r.names().len() ==> is_doc_name(self@, #[trigger] r.names()[j]),
    {
        let lo = make_id_space_start();
        let hi = make_id_space_end();
        let entries = self.kv.range(lo.as_slice(), hi.as_slice());
        let mut keys: Vec<Vec<u8>> = Vec::new();
        let mut i: usize = 0;
        while i < entries.len()
            invariant
                i <= entries@.len(),
                keys@.len() == i,
                forall|j: int| 0 <= j < i ==> #[trigger] keys@[j]@ == entries@[j].0@,
            decreases entries@.len() - i,
        {
            keys.push(entries[i].0.clone());
            i = i + 1;
        }
        assert forall|a: int, b: int| 0 <= a < keys@.len() && 0 <= b < keys@.len() && a != b implies keys@[a]@
            != keys@[b]@ by {
            assert(keys@[a]@ == entries@[a].0@ && keys@[b]@ == entries@[b].0@);
        }
        let ghost unsorted = keys@;
        let sorted = sort_keys(keys);
        let mut names: Vec<Vec<u8>> = Vec::new();
        let mut i: usize = 0;
        while i < sorted.len()
            invariant
                i <= sorted@.len(),
                names@.len() == i,
                forall|j: int| 0 <= j < i ==> #[trigger] names@[j]@ == doc_key_name(sorted@[j]@),
            decreases sorted@.len() - i,
        {
            names.push(doc_name_from_key(sorted[i].as_slice()));
            i = i + 1;
        }
        let ghost ks = sorted@.map_values(|k: Vec<u8>| k@);
        let r = NameIter { names, pos: 0, keys: Ghost(ks) };
        assert forall|j: int| 0 <= j < r.keys().len() implies self@.contains_key(#[trigger] r.keys()[j])
            && in_key_range(r.keys()[j], id_space_start_spec(), id_space_end_spec()) && r.names()[j]
            == doc_key_name(r.keys()[j]) by {
            assert(r.keys()[j] == sorted@[j]@);
            assert(holds_key(unsorted, sorted@[j]@));
            let t = choose|t: int| 0 <= t < unsorted.len() && #[trigger] unsorted[t]@ == sorted@[j]@;
            assert(unsorted[t]@ == entries@[t].0@);
            assert(in_key_range(entries@[t].0@, lo@, hi@));
            assert(r.names()[j] == names@[j]@);
        }
        assert forall|a: int, b: int| 0 <= a < b < r.keys().len() implies lex_lt(r.keys()[a], r.keys()[b]) by {
            assert(r.keys()[a] == sorted@[a]@ && r.keys()[b] == sorted@[b]@);
        }
        assert forall|k: Seq<u8>|
            #[trigger] self@.contains_key(k) && in_key_range(k, id_space_start_spec(), id_space_end_spec())
                implies exists|j: int| 0 <= j < r.keys().len() && r.keys()[j] == k by {
            let t = choose|t: int| 0 <= t < entries@.len() && entries@[t].0@ == k;
            assert(unsorted[t]@ == k);
            assert(holds_key(sorted@, unsorted[t]@));
            let j = choose|j: int| 0 <= j < sorted@.len() && #[trigger] sorted@[j]@ == unsorted[t]@;
            assert(r.keys()[j] == k);
        }
        assert forall|j: int| 0 <= j < r.names().len() implies is_doc_name(self@, #[trigger] r.names()[j]) by {
            assert(self@.contains_key(r.keys()[j]) && in_key_range(r.keys()[j], id_space_start_spec(), id_space_end_spec())
                && r.names()[j] == doc_key_name(r.keys()[j]));
        }
        r
    }
}

/// A name for what `String::from_utf8_lossy` makes of some bytes.
pub uninterp spec fn utf8_lossy_of(b: Seq<u8>) -> Seq<char>;

/// Relies on std's `String::from_utf8_lossy`: decodes UTF-8, putting U+FFFD in place of
/// invalid sequences. The result depends on the bytes alone.
#[verifier::external_body]
fn utf8_lossy(b: &[u8]) -> (r: String)
    ensures
        r@ == utf8_lossy_of(b@),
{
    String::from_utf8_lossy(b).into_owned()
}

/// The object ids of the stored documents, handed out one at a time.
pub struct NameIter {
    names: Vec<Vec<u8>>,
    pos: usize,
    keys: Ghost<Seq<Seq<u8>>>,
}

impl NameIter {
    /// The id-mapping keys the names were read from, one per name.
    pub closed spec fn keys(&self) -> Seq<Seq<u8>> {
        self.keys@
    }

    /// The object ids, as bytes.
    pub closed spec fn names(&self) -> Seq<Seq<u8>> {
        self.names@.map_values(|n: Vec<u8>| n@)
    }

    /// How many have been handed out.
    pub closed spec fn pos(&self) -> int {
        self.pos as int
    }

    /// The next object id, decoded as UTF-8 (invalid sequences replaced), or `None` when
    /// all have been handed out.
    pub fn next(&mut self) -> (r: Option<String>)
        requires
            old(self).pos() <= old(self).names().len(),
        ensures
            final(self).names() == old(self).names(),
            final(self).keys() == old(self).keys(),
            final(self).pos() <= final(self).names().len(),
            old(self).pos() < old(self).names().len() ==> r is Some && r->Some_0@ == utf8_lossy_of(
                old(self).names()[old(self).pos()],
            ) && final(self).pos() == old(self).pos() + 1,
            old(self).pos() == old(self).names().len() ==> r is None && final(self).pos() == old(
                self,
            ).pos(),
    {
        if self.pos < self.names.len() {
            let s = utf8_lossy(self.names[self.pos].as_slice());
            self.pos = self.pos + 1;
            Some(s)
        } else {
            None
        }
    }
}

proof fn lemma_log_frame(m1: KvMap, m2: KvMap, did: DocID, n: nat)
    requires
        n <= Clock::MAX + 1,
        forall|c: Clock|
            (c as nat) < n ==> (#[trigger] m1.contains_key(update_key_spec(did, c))) == m2.contains_key(
                update_key_spec(did, c),
            ) && (m1.contains_key(update_key_spec(did, c)) ==> m1[update_key_spec(did, c)]
                == m2[update_key_spec(did, c)]),
    ensures
        log_upto(m1, did, n) == log_upto(m2, did, n),
    decreases n,
{
    if n > 0 {
        lemma_log_frame(m1, m2, did, (n - 1) as nat);
        let c = (n - 1) as Clock;
        assert(m1.contains_key(update_key_spec(did, c)) == m2.contains_key(update_key_spec(did, c)));
    }
}

proof fn lemma_log_empty(m: KvMap, did: DocID, n: nat)
    requires
        forall|c: Clock| (c as nat) < n ==> !(#[trigger] m.contains_key(update_key_spec(did, c))),
    ensures
        log_upto(m, did, n).len() == 0,
    decreases n,
{
    if n > 0 {
        lemma_log_empty(m, did, (n - 1) as nat);
        assert(!m.contains_key(update_key_spec(did, (n - 1) as Clock)));
    }
}

/// The store after `push_update` appended `u` to document `did`.
pub open spec fn pushed(m: KvMap, did: DocID, u: Seq<u8>) -> KvMap {
    let c = next_clock(m, did);
    m.insert(update_key_spec(did, c), u).insert(clock_key_spec(did), be_u32((c + 1) as u32))
}

/// The store after `push_update` appended each of `us` in turn.
pub open spec fn pushed_all(m: KvMap, did: DocID, us: Seq<Seq<u8>>) -> KvMap
    decreases us.len(),
{
    if us.len() == 0 {
        m
    } else {
        pushed(pushed_all(m, did, us.drop_last()), did, us.last())
    }
}

/// The updates of a log, without their clocks.
pub open spec fn log_values(l: Seq<(Clock, Seq<u8>)>) -> Seq<Seq<u8>> {
    l.map_values(|e: (Clock, Seq<u8>)| e.1)
}

/// Appending an update puts it at the end of the document's log, under the next clock.
pub proof fn lemma_push_extends_log(m: KvMap, did: DocID, u: Seq<u8>)
    requires
        next_clock(m, did) < Clock::MAX,
    ensures
        next_clock(pushed(m, did, u), did) == next_clock(m, did) + 1,
        doc_log(pushed(m, did, u), did) == doc_log(m, did).push((next_clock(m, did), u)),
{
    let c = next_clock(m, did);
    let m2 = pushed(m, did, u);
    lemma_be_u32_round_trip((c + 1) as u32);
    assert(clock_key_spec(did) != update_key_spec(did, c)) by {
        assert(clock_key_spec(did).len() != update_key_spec(did, c).len());
    }
    assert(next_clock(m2, did) == c + 1);
    assert forall|c2: Clock| (c2 as nat) < (c as nat) implies (#[trigger] m2.contains_key(
        update_key_spec(did, c2),
    )) == m.contains_key(update_key_spec(did, c2)) && (m2.contains_key(update_key_spec(did, c2))
        ==> m2[update_key_spec(did, c2)] == m[update_key_spec(did, c2)]) by {
        lemma_update_key_order(did, c2, c);
        lemma_update_key_order(did, c, c2);
        assert(update_key_spec(did, c2) != update_key_spec(did, c));
        assert(clock_key_spec(did).len() != update_key_spec(did, c2).len());
    }
    lemma_log_frame(m2, m, did, c as nat);
    assert(m2.contains_key(update_key_spec(did, c)));
}

/// Replay order is push order: after appending `us` one by one to a document, its log
/// ends with exactly `us`, in that order.
pub proof fn lemma_log_replays_pushes(m: KvMap, did: DocID, us: Seq<Seq<u8>>)
    requires
        next_clock(m, did) + us.len() < Clock::MAX,
    ensures
        next_clock(pushed_all(m, did, us), did) == next_clock(m, did) + us.len(),
        log_values(doc_log(pushed_all(m, did, us), did)) == log_values(doc_log(m, did)) + us,
    decreases us.len(),
{
    if us.len() == 0 {
        assert(log_values(doc_log(m, did)) + us =~= log_values(doc_log(m, did)));
    } else {
        let rest = us.drop_last();
        lemma_log_replays_pushes(m, did, rest);
        let m1 = pushed_all(m, did, rest);
        lemma_push_extends_log(m1, did, us.last());
        assert(log_values(doc_log(m1, did).push((next_clock(m1, did), us.last())))
            =~= log_values(doc_log(m1, did)).push(us.last()));
        assert(log_values(doc_log(m, did)) + us =~= (log_values(doc_log(m, did)) + rest).push(us.last()));
    }
}

/// After compaction the document's log is empty and its baseline is the state written,
/// so a replay applies that state and nothing else.
pub proof fn lemma_flush_leaves_baseline(m: KvMap, did: DocID, s: Seq<u8>, v: Seq<u8>)
    ensures
        ({
            let m2 = without_range(
                with_doc_state(m, did, s, v),
                update_key_spec(did, 0),
                update_key_spec(did, Clock::MAX),
            );
            &&& doc_log(m2, did).len() == 0
            &&& m2.contains_key(doc_state_key_spec(did))
            &&& m2[doc_state_key_spec(did)] == s
        }),
{
    let m1 = with_doc_state(m, did, s, v);
    let m2 = without_range(m1, update_key_spec(did, 0), update_key_spec(did, Clock::MAX));
    assert forall|c: Clock| (c as nat) < (next_clock(m2, did) as nat) implies !(#[trigger] m2.contains_key(
        update_key_spec(did, c),
    )) by {
        lemma_update_key_in_doc_range(did, c);
    }
    lemma_log_empty(m2, did, next_clock(m2, did) as nat);
    let sk = doc_state_key_spec(did);
    let start = update_key_spec(did, 0);
    assert(lex_lt(sk, start)) by {
        assert forall|t: int| 0 <= t < 10 implies sk[t] == start[t] by {
            assert(sk[t] == doc_key_prefix(did)[t]);
            assert(start[t] == doc_key_prefix(did)[t]);
        }
        lemma_lex_prefix_then_smaller(sk, start, 10);
    }
    assert(sk != state_vector_key_spec(did)) by {
        assert(sk[10] != state_vector_key_spec(did)[10]);
    }
}

/// Once a document is deleted its id mapping is gone, so loading it fails with
/// `DocumentNotExist`.
pub proof fn lemma_deleted_doc_is_gone(m: KvMap, uid: i64, oid: Seq<u8>, did: DocID)
    ensures
        doc_id_of(without_doc(m, uid, oid, did), uid, oid) is None,
{
}

/// DocIDs are never handed out twice: a new document takes the next DocID and raises the
/// counter past it, and deleting a document leaves the counter where it was.
pub proof fn lemma_doc_ids_never_reused(m: KvMap, uid: i64, oid: Seq<u8>, did: DocID)
    ensures
        !ids_exhausted(m, uid, oid) && doc_id_of(m, uid, oid) is None ==> next_doc_id(
            with_doc_id(m, uid, oid),
        ) == assigned_id(m, uid, oid) + 1,
        next_doc_id(without_doc(m, uid, oid, did)) == next_doc_id(m),
{
    let ck = counter_key_spec();
    lemma_be_u64_round_trip((next_doc_id(m) + 1) as u64);
    assert(ck != doc_id_key_spec(uid, oid)) by {
        assert(ck.len() != doc_id_key_spec(uid, oid).len());
    }
    let end = update_key_spec(did, Clock::MAX);
    assert(!lex_lt(ck, end)) by {
        assert(ck[0] == end[0]);
        assert(ck[1] > end[1]);
        assert(!lex_lt_from(ck, end, 1));
    }
    assert(ck != doc_state_key_spec(did) && ck != state_vector_key_spec(did) && ck != clock_key_spec(did)) by {
        assert(ck.len() != doc_state_key_spec(did).len());
        assert(ck.len() != clock_key_spec(did).len());
    }
}

/// The store's own invariant: every stored update key of a document lies below that
/// document's next clock, and the DocID counter lies above every mapped DocID.
pub open spec fn store_inv(m: KvMap) -> bool {
    &&& forall|d: DocID, c: Clock|
        #[trigger] m.contains_key(update_key_spec(d, c)) ==> c < next_clock(m, d)
    &&& forall|uid: i64, oid: Seq<u8>|
        #[trigger] doc_id_of(m, uid, oid) is Some ==> doc_id_of(m, uid, oid)->Some_0 < next_doc_id(m)
}

proof fn lemma_id_key_not_doc_key(uid: i64, oid: Seq<u8>, d: DocID, c: Clock)
    ensures
        doc_id_key_spec(uid, oid) != update_key_spec(d, c),
        doc_id_key_spec(uid, oid) != clock_key_spec(d),
        doc_id_key_spec(uid, oid) != counter_key_spec(),
        update_key_spec(d, c) != counter_key_spec(),
        clock_key_spec(d) != counter_key_spec(),
        update_key_spec(d, c) != clock_key_spec(d),
{
    assert(doc_id_key_spec(uid, oid)[1] != update_key_spec(d, c)[1]);
    assert(doc_id_key_spec(uid, oid)[1] != clock_key_spec(d)[1]);
    assert(doc_id_key_spec(uid, oid).len() != counter_key_spec().len());
    assert(update_key_spec(d, c).len() != counter_key_spec().len());
    assert(clock_key_spec(d).len() != counter_key_spec().len());
    assert(update_key_spec(d, c).len() != clock_key_spec(d).len());
}

/// Keys from a later update key of a document to its range end lie in its update range.
proof fn lemma_later_range_in_doc_range(did: DocID, c: Clock)
    ensures
        forall|k: Seq<u8>| #[trigger] in_key_range(k, update_key_spec(did, c), update_key_spec(did, Clock::MAX))
            ==> in_key_range(k, update_key_spec(did, 0), update_key_spec(did, Clock::MAX)),
{
    lemma_update_key_order(did, 0, c);
    assert forall|k: Seq<u8>| #[trigger] in_key_range(k, update_key_spec(did, c), update_key_spec(did, Clock::MAX))
        implies in_key_range(k, update_key_spec(did, 0), update_key_spec(did, Clock::MAX)) by {
        if lex_lt(k, update_key_spec(did, 0)) && c != 0 {
            lemma_lex_trans(k, update_key_spec(did, 0), update_key_spec(did, c));
        }
    }
}

/// Keys that are no update key of `did` and lie outside its range stay when it is pruned:
/// id mappings, the counter, clock keys.
proof fn lemma_fixed_keys_outside_range(uid: i64, oid: Seq<u8>, did: DocID, d: DocID)
    ensures
        !in_key_range(doc_id_key_spec(uid, oid), update_key_spec(did, 0), update_key_spec(did, Clock::MAX)),
        !in_key_range(counter_key_spec(), update_key_spec(did, 0), update_key_spec(did, Clock::MAX)),
        !in_key_range(clock_key_spec(d), update_key_spec(did, 0), update_key_spec(did, Clock::MAX)),
{
    lemma_id_key_before_doc_keys(uid, oid, did, 0);
    let ck = counter_key_spec();
    let end = update_key_spec(did, Clock::MAX);
    assert(!lex_lt(ck, end)) by {
        assert(ck[0] == end[0]);
        assert(ck[1] > end[1]);
        assert(!lex_lt_from(ck, end, 1));
    }
    let k = clock_key_spec(d);
    if d == did {
        assert forall|t: int| 0 <= t < 10 implies k[t] == end[t] by {
            assert(k[t] == doc_key_prefix(d)[t]);
            assert(end[t] == doc_key_prefix(did)[t]);
        }
        lemma_lex_prefix_then_greater(k, end, 10);
    } else {
        assert(k.subrange(0, 10) =~= doc_key_prefix(d));
        lemma_other_doc_outside_range(did, d, k, 0);
    }
}

/// Pruning keys that all lie in a document's update range keeps the invariant.
proof fn lemma_inv_prune(m: KvMap, did: DocID, lo: Seq<u8>, hi: Seq<u8>)
    requires
        store_inv(m),
        forall|k: Seq<u8>| #[trigger] in_key_range(k, lo, hi) ==> in_key_range(
            k,
            update_key_spec(did, 0),
            update_key_spec(did, Clock::MAX),
        ),
    ensures
        store_inv(without_range(m, lo, hi)),
        forall|uid: i64, oid: Seq<u8>| #[trigger] doc_id_of(without_range(m, lo, hi), uid, oid) == doc_id_of(m, uid, oid),
{
    let m2 = without_range(m, lo, hi);
    assert forall|d: DocID| #[trigger] next_clock(m2, d) == next_clock(m, d) by {
        lemma_fixed_keys_outside_range(0, Seq::empty(), did, d);
        assert(!in_key_range(clock_key_spec(d), lo, hi));
    }
    assert(next_doc_id(m2) == next_doc_id(m)) by {
        lemma_fixed_keys_outside_range(0, Seq::empty(), did, 0);
        assert(!in_key_range(counter_key_spec(), lo, hi));
    }
    assert forall|uid: i64, oid: Seq<u8>| #[trigger] doc_id_of(m2, uid, oid) == doc_id_of(m, uid, oid) by {
        lemma_fixed_keys_outside_range(uid, oid, did, 0);
        assert(!in_key_range(doc_id_key_spec(uid, oid), lo, hi));
    }
    assert forall|d: DocID, c: Clock| #[trigger] m2.contains_key(update_key_spec(d, c)) implies c < next_clock(m2, d) by {
        assert(m.contains_key(update_key_spec(d, c)));
        assert(next_clock(m2, d) == next_clock(m, d));
    }
}

/// Writing a document's baseline and state vector keeps the invariant.
proof fn lemma_inv_doc_state(m: KvMap, did: DocID, s: Seq<u8>, v: Seq<u8>)
    requires
        store_inv(m),
    ensures
        store_inv(with_doc_state(m, did, s, v)),
        forall|uid: i64, oid: Seq<u8>| #[trigger] doc_id_of(with_doc_state(m, did, s, v), uid, oid) == doc_id_of(m, uid, oid),
{
    let m2 = with_doc_state(m, did, s, v);
    let sk = doc_state_key_spec(did);
    let vk = state_vector_key_spec(did);
    assert(sk.len() == 11 && vk.len() == 11 && sk[10] == 0 && vk[10] == 1);
    assert forall|d: DocID| #[trigger] next_clock(m2, d) == next_clock(m, d) by {
        assert(clock_key_spec(d)[10] == 3);
    }
    assert(next_doc_id(m2) == next_doc_id(m)) by {
        assert(counter_key_spec().len() == 2);
    }
    assert forall|uid: i64, oid: Seq<u8>| #[trigger] doc_id_of(m2, uid, oid) == doc_id_of(m, uid, oid) by {
        assert(doc_id_key_spec(uid, oid)[1] != sk[1]);
        assert(doc_id_key_spec(uid, oid)[1] != vk[1]);
    }
    assert forall|d: DocID, c: Clock| #[trigger] m2.contains_key(update_key_spec(d, c)) implies c < next_clock(m2, d) by {
        assert(update_key_spec(d, c).len() == 15);
        assert(m.contains_key(update_key_spec(d, c)));
    }
}

/// Mapping a new object to the next DocID keeps the invariant.
proof fn lemma_inv_new_id(m: KvMap, uid: i64, oid: Seq<u8>)
    requires
        store_inv(m),
        doc_id_of(m, uid, oid) is None,
        next_doc_id(m) < u64::MAX,
    ensures
        store_inv(with_doc_id(m, uid, oid)),
{
    let n = next_doc_id(m);
    let m2 = with_doc_id(m, uid, oid);
    let idk = doc_id_key_spec(uid, oid);
    lemma_be_u64_round_trip(n);
    lemma_be_u64_round_trip((n + 1) as u64);
    lemma_id_key_not_doc_key(uid, oid, 0, 0);
    assert(next_doc_id(m2) == n + 1);
    assert forall|d: DocID| #[trigger] next_clock(m2, d) == next_clock(m, d) by {
        lemma_id_key_not_doc_key(uid, oid, d, 0);
    }
    assert forall|u: i64, o: Seq<u8>| #[trigger] doc_id_of(m2, u, o) is Some implies doc_id_of(m2, u, o)->Some_0
        < next_doc_id(m2) by {
        let k = doc_id_key_spec(u, o);
        assert(k.len() != counter_key_spec().len());
        if k != idk {
            assert(doc_id_of(m2, u, o) == doc_id_of(m, u, o));
        }
    }
    assert forall|d: DocID, c: Clock| #[trigger] m2.contains_key(update_key_spec(d, c)) implies c < next_clock(m2, d) by {
        lemma_id_key_not_doc_key(uid, oid, d, c);
        assert(m.contains_key(update_key_spec(d, c)));
    }
}

/// Appending an update keeps the invariant.
proof fn lemma_inv_push(m: KvMap, did: DocID, u: Seq<u8>)
    requires
        store_inv(m),
        next_clock(m, did) < Clock::MAX,
    ensures
        store_inv(pushed(m, did, u)),
        forall|uid: i64, oid: Seq<u8>| #[trigger] doc_id_of(pushed(m, did, u), uid, oid) == doc_id_of(m, uid, oid),
{
    let c0 = next_clock(m, did);
    let m2 = pushed(m, did, u);
    lemma_be_u32_round_trip((c0 + 1) as u32);
    lemma_id_key_not_doc_key(0, Seq::empty(), did, c0);
    assert(next_clock(m2, did) == c0 + 1);
    assert forall|d: DocID| d != did implies #[trigger] next_clock(m2, d) == next_clock(m, d) by {
        lemma_doc_keys_injective(d, 0, did, 0);
        lemma_id_key_not_doc_key(0, Seq::empty(), d, c0);
        assert(clock_key_spec(d).len() != update_key_spec(did, c0).len());
    }
    assert(next_doc_id(m2) == next_doc_id(m));
    assert forall|uid: i64, oid: Seq<u8>| #[trigger] doc_id_of(m2, uid, oid) == doc_id_of(m, uid, oid) by {
        lemma_id_key_not_doc_key(uid, oid, did, c0);
    }
    assert forall|d: DocID, c: Clock| #[trigger] m2.contains_key(update_key_spec(d, c)) implies c < next_clock(m2, d) by {
        lemma_doc_keys_injective(d, c, did, c0);
        lemma_id_key_not_doc_key(0, Seq::empty(), d, c);
        assert(update_key_spec(d, c).len() != clock_key_spec(did).len());
        if d != did || c != c0 {
            assert(m.contains_key(update_key_spec(d, c)));
            if d != did {
                assert(next_clock(m2, d) == next_clock(m, d));
            }
        }
    }
}

/// Deleting a document keeps the invariant.
proof fn lemma_inv_delete(m: KvMap, uid: i64, oid: Seq<u8>, did: DocID)
    requires
        store_inv(m),
    ensures
        store_inv(without_doc(m, uid, oid, did)),
{
    let m1 = without_range(m.remove(doc_id_key_spec(uid, oid)), update_key_spec(did, 0), update_key_spec(did, Clock::MAX));
    let m2 = without_doc(m, uid, oid, did);
    let sk = doc_state_key_spec(did);
    let vk = state_vector_key_spec(did);
    assert(sk[10] == 0 && vk[10] == 1 && sk.len() == 11 && vk.len() == 11);
    assert(next_doc_id(m2) == next_doc_id(m)) by {
        lemma_fixed_keys_outside_range(uid, oid, did, did);
        lemma_id_key_not_doc_key(uid, oid, did, 0);
        assert(counter_key_spec().len() != sk.len());
    }
    assert forall|u: i64, o: Seq<u8>| #[trigger] doc_id_of(m2, u, o) is Some implies doc_id_of(m2, u, o)->Some_0
        < next_doc_id(m2) by {
        let k = doc_id_key_spec(u, o);
        lemma_id_key_not_doc_key(u, o, did, 0);
        assert(k[1] != sk[1] && k[1] != vk[1]);
        assert(m.contains_key(k));
        assert(doc_id_of(m, u, o) == doc_id_of(m2, u, o));
    }
    assert forall|d: DocID, c: Clock| #[trigger] m2.contains_key(update_key_spec(d, c)) implies c < next_clock(m2, d) by {
        let k = update_key_spec(d, c);
        assert(m.contains_key(k));
        assert(c < next_clock(m, d));
        if d == did {
            lemma_update_key_in_doc_range(did, c);
        } else {
            lemma_fixed_keys_outside_range(uid, oid, did, d);
            lemma_doc_keys_injective(d, 0, did, 0);
            lemma_id_key_not_doc_key(uid, oid, d, 0);
            assert(clock_key_spec(d)[10] != sk[10] && clock_key_spec(d)[10] != vk[10]);
            assert(next_clock(m2, d) == next_clock(m, d));
        }
    }
}

proof fn lemma_log_upto_holds(m: KvMap, did: DocID, c: Clock, n: nat)
    requires
        (c as nat) < n,
        n <= Clock::MAX + 1,
        m.contains_key(update_key_spec(did, c)),
    ensures
        exists|i: int|
            0 <= i < log_upto(m, did, n).len() && #[trigger] log_upto(m, did, n)[i] == (c, m[update_key_spec(did, c)]),
    decreases n,
{
    let p = log_upto(m, did, (n - 1) as nat);
    if (c as nat) < n - 1 {
        lemma_log_upto_holds(m, did, c, (n - 1) as nat);
        let i = choose|i: int| 0 <= i < p.len() && #[trigger] p[i] == (c, m[update_key_spec(did, c)]);
        assert(log_upto(m, did, n)[i] == p[i]);
    } else {
        assert(log_upto(m, did, n) == p.push((c, m[update_key_spec(did, c)])));
        assert(log_upto(m, did, n)[p.len() as int] == (c, m[update_key_spec(did, c)]));
    }
}

/// In a well-formed store every stored update of a document is in its log, which is what
/// `load_doc` replays and `number_of_updates` counts.
pub proof fn lemma_log_holds_every_update(m: KvMap, did: DocID, c: Clock)
    requires
        store_inv(m),
        m.contains_key(update_key_spec(did, c)),
    ensures
        exists|i: int|
            0 <= i < doc_log(m, did).len() && #[trigger] doc_log(m, did)[i] == (c, m[update_key_spec(did, c)]),
{
    assert(c < next_clock(m, did));
    lemma_log_upto_holds(m, did, c, next_clock(m, did) as nat);
    let i = choose|i: int|
        0 <= i < log_upto(m, did, next_clock(m, did) as nat).len() && #[trigger] log_upto(
            m,
            did,
            next_clock(m, did) as nat,
        )[i] == (c, m[update_key_spec(did, c)]);
    assert(doc_log(m, did)[i] == (c, m[update_key_spec(did, c)]));
}

/// `k` is the view of one of `s`.
pub open spec fn holds_key(s: Seq<Vec<u8>>, k: Seq<u8>) -> bool {
    exists|t: int| 0 <= t < s.len() && #[trigger] s[t]@ == k
}

/// `keys`, each once, sorted by the byte order.
fn sort_keys(keys: Vec<Vec<u8>>) -> (r: Vec<Vec<u8>>)
    requires
        forall|a: int, b: int| 0 <= a < keys@.len() && 0 <= b < keys@.len() && a != b ==> keys@[a]@ != keys@[b]@,
    ensures
        forall|a: int, b: int| 0 <= a < b < r@.len() ==> lex_lt(r@[a]@, r@[b]@),
        forall|j: int| 0 <= j < r@.len() ==> holds_key(keys@, #[trigger] r@[j]@),
        forall|t: int| 0 <= t < keys@.len() ==> holds_key(r@, #[trigger] keys@[t]@),
{
    let ghost orig = keys@;
    let mut rest = keys;
    let mut out: Vec<Vec<u8>> = Vec::new();
    assert forall|j: int| 0 <= j < rest@.len() implies holds_key(orig, #[trigger] rest@[j]@) by {
        assert(orig[j]@ == rest@[j]@);
    }
    assert forall|t: int| 0 <= t < orig.len() implies holds_key(out@, #[trigger] orig[t]@) || holds_key(rest@, orig[t]@) by {
        assert(rest@[t]@ == orig[t]@);
    }
    while rest.len() > 0
        invariant
            forall|a: int, b: int| 0 <= a < b < out@.len() ==> lex_lt(out@[a]@, out@[b]@),
            forall|a: int, b: int| 0 <= a < out@.len() && 0 <= b < rest@.len() ==> lex_lt(out@[a]@, rest@[b]@),
            forall|a: int, b: int| 0 <= a < rest@.len() && 0 <= b < rest@.len() && a != b ==> rest@[a]@ != rest@[b]@,
            forall|j: int| 0 <= j < out@.len() ==> holds_key(orig, #[trigger] out@[j]@),
            forall|j: int| 0 <= j < rest@.len() ==> holds_key(orig, #[trigger] rest@[j]@),
            forall|t: int| 0 <= t < orig.len() ==> holds_key(out@, #[trigger] orig[t]@) || holds_key(rest@, orig[t]@),
        decreases rest@.len(),
    {
        let mut best: usize = 0;
        let mut i: usize = 1;
        proof {
            lemma_lex_irrefl(rest@[0]@);
        }
        while i < rest.len()
            invariant
                best < rest@.len(),
                1 <= i <= rest@.len(),
                forall|j: int| 0 <= j < i ==> !lex_lt(#[trigger] rest@[j]@, rest@[best as int]@),
            decreases rest@.len() - i,
        {
            if key_lt(rest[i].as_slice(), rest[best].as_slice()) {
                proof {
                    assert forall|j: int| 0 <= j < i + 1 implies !lex_lt(#[trigger] rest@[j]@, rest@[i as int]@) by {
                        if j < i && lex_lt(rest@[j]@, rest@[i as int]@) {
                            lemma_lex_trans(rest@[j]@, rest@[i as int]@, rest@[best as int]@);
                        }
                        if j == i {
                            lemma_lex_irrefl(rest@[j]@);
                        }
                    }
                }
                best = i;
            }
            i = i + 1;
        }
        let ghost r0 = rest@;
        let ghost o0 = out@;
        let m = rest.remove(best);
        proof {
            assert forall|b: int| 0 <= b < rest@.len() implies lex_lt(m@, rest@[b]@) by {
                let b0 = if b < best { b } else { b + 1 };
                assert(rest@[b] == r0[b0]);
                assert(r0[b0]@ != m@);
                lemma_lex_total(m@, r0[b0]@);
            }
        }
        out.push(m);
        proof {
            assert forall|a: int, b: int| 0 <= a < b < out@.len() implies lex_lt(out@[a]@, out@[b]@) by {
                if b == o0.len() {
                    assert(out@[a] == o0[a]);
                    assert(lex_lt(o0[a]@, r0[best as int]@));
                } else {
                    assert(out@[a] == o0[a] && out@[b] == o0[b]);
                }
            }
            assert forall|a: int, b: int| 0 <= a < out@.len() && 0 <= b < rest@.len() implies lex_lt(out@[a]@, rest@[b]@) by {
                let b0 = if b < best { b } else { b + 1 };
                assert(rest@[b] == r0[b0]);
                if a < o0.len() {
                    assert(out@[a] == o0[a]);
                }
            }
            assert forall|a: int, b: int| 0 <= a < rest@.len() && 0 <= b < rest@.len() && a != b implies rest@[a]@ != rest@[b]@ by {
                let a0 = if a < best { a } else { a + 1 };
                let b0 = if b < best { b } else { b + 1 };
                assert(rest@[a] == r0[a0] && rest@[b] == r0[b0]);
            }
            assert forall|j: int| 0 <= j < out@.len() implies holds_key(orig, #[trigger] out@[j]@) by {
                if j < o0.len() {
                    assert(out@[j] == o0[j]);
                } else {
                    assert(out@[j] == r0[best as int]);
                }
            }
            assert forall|j: int| 0 <= j < rest@.len() implies holds_key(orig, #[trigger] rest@[j]@) by {
                let j0 = if j < best { j } else { j + 1 };
                assert(rest@[j] == r0[j0]);
            }
            assert forall|t: int| 0 <= t < orig.len() implies holds_key(out@, #[trigger] orig[t]@) || holds_key(rest@, orig[t]@) by {
                if holds_key(o0, orig[t]@) {
                    let j = choose|j: int| 0 <= j < o0.len() && #[trigger] o0[j]@ == orig[t]@;
                    assert(out@[j] == o0[j]);
                } else {
                    assert(holds_key(r0, orig[t]@));
                    let j = choose|j: int| 0 <= j < r0.len() && #[trigger] r0[j]@ == orig[t]@;
                    if j == best {
                        assert(out@[o0.len() as int] == r0[j]);
                    } else if j < best {
                        assert(rest@[j] == r0[j]);
                    } else {
                        assert(rest@[j - 1] == r0[j]);
                    }
                }
            }
        }
    }
    out
}

/// Flush then load: after compaction of a document with baseline `s`, a replay returns 0 and
/// hands the document exactly `s`, whatever it held before.
pub proof fn lemma_flush_then_load(
    m: KvMap,
    uid: i64,
    oid: Seq<u8>,
    did: DocID,
    s: Seq<u8>,
    v: Seq<u8>,
    d0: Seq<(Seq<u8>, bool)>,
    m2: KvMap,
    d2: Seq<(Seq<u8>, bool)>,
    r: Result<u32, PersistenceError>,
)
    requires
        store_inv(m),
        doc_id_of(m, uid, oid) == Some(did),
        loaded(flushed(m, did, s, v), uid, oid, d0, m2, d2, r),
    ensures
        r == Ok::<u32, PersistenceError>(0),
        m2 == flushed(m, did, s, v),
        d2 == d0.push((s, true)) || d2 == d0.push((s, false)),
{
    lemma_inv_doc_state(m, did, s, v);
    lemma_inv_prune(with_doc_state(m, did, s, v), did, update_key_spec(did, 0), update_key_spec(did, Clock::MAX));
    assert(doc_id_of(flushed(m, did, s, v), uid, oid) == Some(did));
    lemma_flush_leaves_baseline(m, did, s, v);
    let l = doc_log(flushed(m, did, s, v), did);
    assert(l.take(0) =~= Seq::<(Clock, Seq<u8>)>::empty());
    assert(accepted(Seq::<(Clock, Seq<u8>)>::empty()) =~= Seq::<(Seq<u8>, bool)>::empty());
    let b = choose|b: bool|
        d2 == d0.push((flushed(m, did, s, v)[doc_state_key_spec(did)], b)) + accepted(l.take(0)) + Seq::<(Seq<u8>, bool)>::empty();
    assert(d2 =~= d0.push((s, b)));
}

/// The store that holds `s`'s entries, a later entry replacing an earlier one of the same key.
pub open spec fn entries_map(s: Seq<(Vec<u8>, Vec<u8>)>) -> KvMap
    decreases s.len(),
{
    if s.len() == 0 {
        Map::empty()
    } else {
        entries_map(s.drop_last()).insert(s.last().0@, s.last().1@)
    }
}

/// The part of the store invariant that the entry under `k` is responsible for.
pub open spec fn entry_ok(m: KvMap, k: Seq<u8>) -> bool {
    &&& is_update_key(k) && m.contains_key(k) ==> key_clock(k) < next_clock(m, key_doc(k))
    &&& is_id_key(k) && m.contains_key(k) && m[k].len() == 8 ==> u64_of_be(m[k]) < next_doc_id(m)
}

impl DocStore {
    /// Every entry of the store, each key once, for writing it out; `from_entries` reads
    /// them back into the same store.
    pub fn entries(&self) -> (r: Vec<(Vec<u8>, Vec<u8>)>)
        requires
            self.wf(),
        ensures
            forall|j: int| 0 <= j < r@.len() ==> self@.contains_key(#[trigger] r@[j].0@) && self@[r@[j].0@] == r@[j].1@,
            forall|k: Seq<u8>| #[trigger] self@.contains_key(k) ==> exists|j: int| 0 <= j < r@.len() && r@[j].0@ == k,
            forall|a: int, b: int| 0 <= a < r@.len() && 0 <= b < r@.len() && a != b ==> r@[a].0@ != r@[b].0@,
            entries_map(r@) == self@,
            forall|j: int| 0 <= j < r@.len() ==> entry_ok(entries_map(r@), #[trigger] r@[j].0@),
    {
        let r = self.kv.entries();
        proof {
            lemma_export_import(self@, r@);
        }
        r
    }

    /// A store made of `entries` read back in: `None` when they break the store invariant
    /// (an update at or past its document's next clock, or a DocID at or past the counter).
    pub fn from_entries(entries: Vec<(Vec<u8>, Vec<u8>)>) -> (r: Option<DocStore>)
        ensures
            r is Some <==> forall|j: int| 0 <= j < entries@.len() ==> entry_ok(entries_map(entries@), #[trigger] entries@[j].0@),
            r is Some ==> r->Some_0.wf() && r->Some_0@ == entries_map(entries@),
    {
        let ghost m = entries_map(entries@);
        let mut kv = MemKv::new();
        let mut i: usize = 0;
        while i < entries.len()
            invariant
                i <= entries@.len(),
                kv.wf(),
                kv@ == entries_map(entries@.take(i as int)),
                forall|k: Seq<u8>| #[trigger] kv@.contains_key(k) ==> exists|t: int| 0 <= t < i && entries@[t].0@ == k,
            decreases entries@.len() - i,
        {
            kv.insert(entries[i].0.clone(), entries[i].1.clone());
            assert(entries@.take(i + 1).drop_last() =~= entries@.take(i as int));
            i = i + 1;
        }
        assert(entries@.take(i as int) =~= entries@);
        proof {
            lemma_entries_map(entries@);
        }
        let store = DocStore { kv };
        let mut j: usize = 0;
        while j < entries.len()
            invariant
                j <= entries@.len(),
                store.kv.wf(),
                store@ == m,
                m == entries_map(entries@),
                forall|t: int| 0 <= t < entries@.len() ==> m.contains_key(#[trigger] entries@[t].0@),
                forall|t: int| 0 <= t < j ==> entry_ok(m, #[trigger] entries@[t].0@),
            decreases entries@.len() - j,
        {
            let k = entries[j].0.as_slice();
            if k.len() == 15 && k[0] == 0 && k[1] == 1 && k[10] == 2 {
                let d = read_be_u64_at(k, 2);
                let c = read_be_u32_at(k, 11);
                if c >= store.next_clock(d) {
                    assert(!entry_ok(m, entries@[j as int].0@));
                    return None;
                }
            }
            if k.len() >= 10 && k[0] == 0 && k[1] == 0 {
                if let Some(v) = store.kv.get(k) {
                    if v.len() == 8 && read_be_u64(v.as_slice()) >= store.next_doc_id() {
                        assert(!entry_ok(m, entries@[j as int].0@));
                        return None;
                    }
                }
            }
            j = j + 1;
        }
        proof {
            assert forall|d: DocID, c: Clock| #[trigger] m.contains_key(update_key_spec(d, c)) implies c < next_clock(m, d) by {
                let t = choose|t: int| 0 <= t < entries@.len() && entries@[t].0@ == update_key_spec(d, c);
                assert(entry_ok(m, entries@[t].0@));
                lemma_key_shapes(d, c, 0, Seq::empty());
            }
            assert forall|uid: i64, oid: Seq<u8>| #[trigger] doc_id_of(m, uid, oid) is Some implies doc_id_of(m, uid, oid)->Some_0 < next_doc_id(m) by {
                let k = doc_id_key_spec(uid, oid);
                let t = choose|t: int| 0 <= t < entries@.len() && entries@[t].0@ == k;
                assert(entry_ok(m, entries@[t].0@));
                lemma_key_shapes(0, 0, uid, oid);
            }
        }
        Some(store)
    }
}

/// In a store that keeps the invariant, every entry passes the check `from_entries` makes.
pub proof fn lemma_inv_entry_ok(m: KvMap, k: Seq<u8>)
    requires
        store_inv(m),
    ensures
        entry_ok(m, k),
{
    if is_update_key(k) {
        lemma_update_key_of_shape(k);
        if m.contains_key(k) {
            assert(m.contains_key(update_key_spec(key_doc(k), key_clock(k))));
        }
    }
    if is_id_key(k) && m.contains_key(k) && m[k].len() == 8 {
        let u = u64_of_be(k.subrange(2, 10));
        let uid = #[verifier::truncate] (u as i64);
        let oid = k.subrange(10, k.len() as int);
        assert((#[verifier::truncate] ((#[verifier::truncate] (u as i64)) as u64)) == u) by (bit_vector);
        assert((uid as u64) == u);
        lemma_be_u64_of_bytes(k.subrange(2, 10));
        assert(k =~= doc_id_key_spec(uid, oid));
        assert(doc_id_of(m, uid, oid) is Some);
    }
}

/// The keys of `entries_map(s)` are the keys of `s`; with each key once, each maps to its
/// entry's value.
pub proof fn lemma_entries_map(s: Seq<(Vec<u8>, Vec<u8>)>)
    ensures
        forall|k: Seq<u8>| #[trigger] entries_map(s).contains_key(k) <==> exists|j: int| 0 <= j < s.len() && s[j].0@ == k,
        (forall|a: int, b: int| 0 <= a < s.len() && 0 <= b < s.len() && a != b ==> s[a].0@ != s[b].0@) ==> forall|j: int|
            0 <= j < s.len() ==> entries_map(s)[#[trigger] s[j].0@] == s[j].1@,
    decreases s.len(),
{
    if s.len() > 0 {
        let p = s.drop_last();
        lemma_entries_map(p);
        assert forall|k: Seq<u8>| #[trigger] entries_map(s).contains_key(k) <==> exists|j: int| 0 <= j < s.len() && s[j].0@ == k by {
            if entries_map(p).contains_key(k) {
                let j = choose|j: int| 0 <= j < p.len() && p[j].0@ == k;
                assert(s[j] == p[j]);
            }
            if exists|j: int| 0 <= j < s.len() && s[j].0@ == k {
                let j = choose|j: int| 0 <= j < s.len() && s[j].0@ == k;
                if j < s.len() - 1 {
                    assert(p[j] == s[j]);
                }
            }
        }
        if forall|a: int, b: int| 0 <= a < s.len() && 0 <= b < s.len() && a != b ==> s[a].0@ != s[b].0@ {
            assert forall|j: int| 0 <= j < s.len() implies entries_map(s)[#[trigger] s[j].0@] == s[j].1@ by {
                if j < s.len() - 1 {
                    assert(p[j] == s[j]);
                    assert(s[j].0@ != s.last().0@);
                }
            }
        }
    }
}

/// Writing a store's entries out and reading them back gives the same store.
pub proof fn lemma_export_import(m: KvMap, e: Seq<(Vec<u8>, Vec<u8>)>)
    requires
        store_inv(m),
        forall|j: int| 0 <= j < e.len() ==> m.contains_key(#[trigger] e[j].0@) && m[e[j].0@] == e[j].1@,
        forall|k: Seq<u8>| #[trigger] m.contains_key(k) ==> exists|j: int| 0 <= j < e.len() && e[j].0@ == k,
        forall|a: int, b: int| 0 <= a < e.len() && 0 <= b < e.len() && a != b ==> e[a].0@ != e[b].0@,
    ensures
        entries_map(e) == m,
        forall|j: int| 0 <= j < e.len() ==> entry_ok(entries_map(e), #[trigger] e[j].0@),
{
    lemma_entries_map(e);
    assert forall|k: Seq<u8>| #[trigger] entries_map(e).contains_key(k) == m.contains_key(k) by {}
    assert forall|k: Seq<u8>| #[trigger] entries_map(e).contains_key(k) implies entries_map(e)[k] == m[k] by {
        let j = choose|j: int| 0 <= j < e.len() && e[j].0@ == k;
    }
    assert(entries_map(e) =~= m);
    assert forall|j: int| 0 <= j < e.len() implies entry_ok(entries_map(e), #[trigger] e[j].0@) by {
        lemma_inv_entry_ok(m, e[j].0@);
    }
}

} // verus!
