//! The key space: how documents, their baseline state, their state vector and their
//! update log are laid out in an ordered byte-keyed store.
use vstd::prelude::*;

verus! {

/// Process-local dense identifier of a document.
pub type DocID = u64;

/// Position of an update in one document's log.
pub type Clock = u32;

/// First byte of every key that this library writes.
pub const DOC_SPACE: u8 = 0;
/// Second byte of the id-mapping entries (owner, object id) -> DocID.
pub const DOC_SPACE_OBJECT: u8 = 0;
/// Second byte of the per-document entries.
pub const DOC_SPACE_OBJECT_KEY: u8 = 1;
/// Second byte of the entry that holds the next DocID to hand out.
pub const DOC_SPACE_COUNTER: u8 = 2;

/// Tag of the baseline-state entry of a document.
pub const DOC_STATE: u8 = 0;
/// Tag of the state-vector entry of a document.
pub const DOC_STATE_VEC: u8 = 1;
/// Tag of the update entries of a document.
pub const DOC_UPDATE: u8 = 2;
/// Tag of the entry that holds the next clock of a document.
pub const DOC_CLOCK: u8 = 3;

/// Big-endian bytes of a 64-bit integer.
pub open spec fn be_u64(x: u64) -> Seq<u8> {
    seq![
        (x >> 56u64) as u8, (x >> 48u64) as u8, (x >> 40u64) as u8, (x >> 32u64) as u8,
        (x >> 24u64) as u8, (x >> 16u64) as u8, (x >> 8u64) as u8, x as u8,
    ]
}

/// Big-endian bytes of a 32-bit integer.
pub open spec fn be_u32(x: u32) -> Seq<u8> {
    seq![(x >> 24u32) as u8, (x >> 16u32) as u8, (x >> 8u32) as u8, x as u8]
}

/// The integer that eight big-endian bytes stand for.
pub open spec fn u64_of_be(b: Seq<u8>) -> u64 {
    ((b[0] as u64) << 56u64) | ((b[1] as u64) << 48u64) | ((b[2] as u64) << 40u64)
        | ((b[3] as u64) << 32u64) | ((b[4] as u64) << 24u64) | ((b[5] as u64) << 16u64)
        | ((b[6] as u64) << 8u64) | (b[7] as u64)
}

/// Id-mapping key: tag bytes, the owner id big-endian, then the object id.
pub open spec fn doc_id_key_spec(uid: i64, object_id: Seq<u8>) -> Seq<u8> {
    seq![DOC_SPACE, DOC_SPACE_OBJECT] + be_u64(uid as u64) + object_id
}

/// The prefix shared by every per-document key of `did`.
pub open spec fn doc_key_prefix(did: DocID) -> Seq<u8> {
    seq![DOC_SPACE, DOC_SPACE_OBJECT_KEY] + be_u64(did)
}

/// Key of a document's baseline state.
pub open spec fn doc_state_key_spec(did: DocID) -> Seq<u8> {
    doc_key_prefix(did).push(DOC_STATE)
}

/// Key of a document's state vector.
pub open spec fn state_vector_key_spec(did: DocID) -> Seq<u8> {
    doc_key_prefix(did).push(DOC_STATE_VEC)
}

/// Key of the entry holding a document's next clock.
pub open spec fn clock_key_spec(did: DocID) -> Seq<u8> {
    doc_key_prefix(did).push(DOC_CLOCK)
}

/// Key of the update at `clock`: the clock big-endian, so keys sort as clocks do.
pub open spec fn update_key_spec(did: DocID, clock: Clock) -> Seq<u8> {
    doc_key_prefix(did).push(DOC_UPDATE) + be_u32(clock)
}

/// Key of the entry holding the next DocID.
pub open spec fn counter_key_spec() -> Seq<u8> {
    seq![DOC_SPACE, DOC_SPACE_COUNTER]
}

/// Lexicographic order on byte strings, comparing from position `i` on.
pub open spec fn lex_lt_from(a: Seq<u8>, b: Seq<u8>, i: int) -> bool
    decreases a.len() - i,
{
    if i < 0 || i >= a.len() {
        0 <= i < b.len()
    } else if i >= b.len() {
        false
    } else if a[i] < b[i] {
        true
    } else if a[i] > b[i] {
        false
    } else {
        lex_lt_from(a, b, i + 1)
    }
}

/// `a` sorts strictly before `b` in the store's byte order.
pub open spec fn lex_lt(a: Seq<u8>, b: Seq<u8>) -> bool {
    lex_lt_from(a, b, 0)
}

/// `k` lies in the half-open interval `[lo, hi)` of the byte order.
pub open spec fn in_key_range(k: Seq<u8>, lo: Seq<u8>, hi: Seq<u8>) -> bool {
    !lex_lt(k, lo) && lex_lt(k, hi)
}

fn push_be_u64(v: &mut Vec<u8>, x: u64)
    ensures
        final(v)@ == old(v)@ + be_u64(x),
{
    v.push((x >> 56u64) as u8);
    v.push((x >> 48u64) as u8);
    v.push((x >> 40u64) as u8);
    v.push((x >> 32u64) as u8);
    v.push((x >> 24u64) as u8);
    v.push((x >> 16u64) as u8);
    v.push((x >> 8u64) as u8);
    v.push(x as u8);
    assert(v@ =~= old(v)@ + be_u64(x));
}

fn push_be_u32(v: &mut Vec<u8>, x: u32)
    ensures
        final(v)@ == old(v)@ + be_u32(x),
{
    v.push((x >> 24u32) as u8);
    v.push((x >> 16u32) as u8);
    v.push((x >> 8u32) as u8);
    v.push(x as u8);
    assert(v@ =~= old(v)@ + be_u32(x));
}

/// Reads eight big-endian bytes back into the integer that `be_u64` wrote.
pub fn read_be_u64(b: &[u8]) -> (r: u64)
    requires
        b@.len() == 8,
    ensures
        r == u64_of_be(b@),
{
    ((b[0] as u64) << 56u64) | ((b[1] as u64) << 48u64) | ((b[2] as u64) << 40u64)
        | ((b[3] as u64) << 32u64) | ((b[4] as u64) << 24u64) | ((b[5] as u64) << 16u64)
        | ((b[6] as u64) << 8u64) | (b[7] as u64)
}

/// Writing an integer big-endian and reading it back gives the integer.
pub proof fn lemma_be_u64_round_trip(x: u64)
    ensures
        u64_of_be(be_u64(x)) == x,
{
    let b = be_u64(x);
    let b0 = (x >> 56u64) as u8;
    let b1 = (x >> 48u64) as u8;
    let b2 = (x >> 40u64) as u8;
    let b3 = (x >> 32u64) as u8;
    let b4 = (x >> 24u64) as u8;
    let b5 = (x >> 16u64) as u8;
    let b6 = (x >> 8u64) as u8;
    let b7 = x as u8;
    assert(b[0] == b0 && b[1] == b1 && b[2] == b2 && b[3] == b3);
    assert(b[4] == b4 && b[5] == b5 && b[6] == b6 && b[7] == b7);
    assert(((b0 as u64) << 56u64) | ((b1 as u64) << 48u64) | ((b2 as u64) << 40u64)
        | ((b3 as u64) << 32u64) | ((b4 as u64) << 24u64) | ((b5 as u64) << 16u64)
        | ((b6 as u64) << 8u64) | (b7 as u64) == x) by (bit_vector)
        requires
            b0 == (x >> 56u64) as u8,
            b1 == (x >> 48u64) as u8,
            b2 == (x >> 40u64) as u8,
            b3 == (x >> 32u64) as u8,
            b4 == (x >> 24u64) as u8,
            b5 == (x >> 16u64) as u8,
            b6 == (x >> 8u64) as u8,
            b7 == x as u8,
    ;
}

/// The key of the entry that maps (owner, object id) to a DocID.
pub fn make_doc_id_key(uid: i64, object_id: &[u8]) -> (r: Vec<u8>)
    ensures
        r@ == doc_id_key_spec(uid, object_id@),
{
    let mut v: Vec<u8> = Vec::new();
    v.push(DOC_SPACE);
    v.push(DOC_SPACE_OBJECT);
    push_be_u64(&mut v, uid as u64);
    let mut i: usize = 0;
    while i < object_id.len()
        invariant
            i <= object_id@.len(),
            v@ == seq![DOC_SPACE, DOC_SPACE_OBJECT] + be_u64(uid as u64) + object_id@.subrange(0, i as int),
        decreases object_id@.len() - i,
    {
        v.push(object_id[i]);
        i = i + 1;
        assert(object_id@.subrange(0, i as int) =~= object_id@.subrange(0, i - 1).push(object_id@[i - 1]));
        assert(v@ =~= seq![DOC_SPACE, DOC_SPACE_OBJECT] + be_u64(uid as u64) + object_id@.subrange(0, i as int));
    }
    assert(object_id@.subrange(0, i as int) =~= object_id@);
    v
}

fn make_doc_prefix(did: DocID) -> (r: Vec<u8>)
    ensures
        r@ == doc_key_prefix(did),
{
    let mut v: Vec<u8> = Vec::new();
    v.push(DOC_SPACE);
    v.push(DOC_SPACE_OBJECT_KEY);
    push_be_u64(&mut v, did);
    assert(v@ =~= doc_key_prefix(did));
    v
}

/// The key of a document's baseline state.
pub fn make_doc_state_key(did: DocID) -> (r: Vec<u8>)
    ensures
        r@ == doc_state_key_spec(did),
{
    let mut v = make_doc_prefix(did);
    v.push(DOC_STATE);
    v
}

/// The key of a document's state vector.
pub fn make_state_vector_key(did: DocID) -> (r: Vec<u8>)
    ensures
        r@ == state_vector_key_spec(did),
{
    let mut v = make_doc_prefix(did);
    v.push(DOC_STATE_VEC);
    v
}

/// The key of the entry that holds a document's next clock.
pub fn make_clock_key(did: DocID) -> (r: Vec<u8>)
    ensures
        r@ == clock_key_spec(did),
{
    let mut v = make_doc_prefix(did);
    v.push(DOC_CLOCK);
    v
}

/// The key of the update at `clock` in a document's log.
pub fn make_doc_update_key(did: DocID, clock: Clock) -> (r: Vec<u8>)
    ensures
        r@ == update_key_spec(did, clock),
{
    let mut v = make_doc_prefix(did);
    v.push(DOC_UPDATE);
    push_be_u32(&mut v, clock);
    v
}

/// The key of the entry that holds the next DocID to hand out.
pub fn make_counter_key() -> (r: Vec<u8>)
    ensures
        r@ == counter_key_spec(),
{
    let mut v: Vec<u8> = Vec::new();
    v.push(DOC_SPACE);
    v.push(DOC_SPACE_COUNTER);
    assert(v@ =~= counter_key_spec());
    v
}

/// First key of a document's update log.
pub fn make_doc_start_key(did: DocID) -> (r: Vec<u8>)
    ensures
        r@ == update_key_spec(did, 0),
{
    make_doc_update_key(did, 0)
}

/// End (excluded) of a document's update log.
pub fn make_doc_end_key(did: DocID) -> (r: Vec<u8>)
    ensures
        r@ == update_key_spec(did, Clock::MAX),
{
    make_doc_update_key(did, Clock::MAX)
}

/// The object id that an id-mapping key holds.
pub fn doc_name_from_key(key: &[u8]) -> (r: Vec<u8>)
    ensures
        r@ == doc_key_name(key@),
        forall|uid: i64, o: Seq<u8>| key@ == doc_id_key_spec(uid, o) ==> r@ == o,
{
    let mut v: Vec<u8> = Vec::new();
    if key.len() < 10 {
        assert(v@ =~= doc_key_name(key@));
        return v;
    }
    let mut i: usize = 10;
    while i < key.len()
        invariant
            10 <= i <= key@.len(),
            v@ == key@.subrange(10, i as int),
        decreases key@.len() - i,
    {
        v.push(key[i]);
        i = i + 1;
        assert(v@ =~= key@.subrange(10, i as int));
    }
    assert forall|uid: i64, o: Seq<u8>| key@ == doc_id_key_spec(uid, o) implies v@ == o by {
        assert(key@.subrange(10, key@.len() as int) =~= o);
    }
    v
}

/// Byte-order comparison of two keys.
pub fn key_lt(a: &[u8], b: &[u8]) -> (r: bool)
    ensures
        r == lex_lt(a@, b@),
{
    let mut i: usize = 0;
    while i < a.len() && i < b.len()
        invariant
            i <= a@.len(),
            i <= b@.len(),
            lex_lt_from(a@, b@, 0) == lex_lt_from(a@, b@, i as int),
        decreases a@.len() - i,
    {
        if a[i] < b[i] {
            return true;
        } else if a[i] > b[i] {
            return false;
        }
        i = i + 1;
    }
    i < b.len()
}

/// Whether `k` lies in `[lo, hi)` of the byte order.
pub fn key_in_range(k: &[u8], lo: &[u8], hi: &[u8]) -> (r: bool)
    ensures
        r == in_key_range(k@, lo@, hi@),
{
    !key_lt(k, lo) && key_lt(k, hi)
}

/// The integer that four big-endian bytes stand for.
pub open spec fn u32_of_be(b: Seq<u8>) -> u32 {
    ((b[0] as u32) << 24u32) | ((b[1] as u32) << 16u32) | ((b[2] as u32) << 8u32) | (b[3] as u32)
}

/// Reads four big-endian bytes back into the integer that `be_u32` wrote.
pub fn read_be_u32(b: &[u8]) -> (r: u32)
    requires
        b@.len() == 4,
    ensures
        r == u32_of_be(b@),
{
    ((b[0] as u32) << 24u32) | ((b[1] as u32) << 16u32) | ((b[2] as u32) << 8u32) | (b[3] as u32)
}

/// Writing a 32-bit integer big-endian and reading it back gives the integer.
pub proof fn lemma_be_u32_round_trip(x: u32)
    ensures
        u32_of_be(be_u32(x)) == x,
{
    let b = be_u32(x);
    let b0 = (x >> 24u32) as u8;
    let b1 = (x >> 16u32) as u8;
    let b2 = (x >> 8u32) as u8;
    let b3 = x as u8;
    assert(b[0] == b0 && b[1] == b1 && b[2] == b2 && b[3] == b3);
    assert(((b0 as u32) << 24u32) | ((b1 as u32) << 16u32) | ((b2 as u32) << 8u32) | (b3 as u32)
        == x) by (bit_vector)
        requires
            b0 == (x >> 24u32) as u8,
            b1 == (x >> 16u32) as u8,
            b2 == (x >> 8u32) as u8,
            b3 == x as u8,
    ;
}

/// Writes the big-endian bytes of a 64-bit integer.
pub fn be_bytes_u64(x: u64) -> (r: Vec<u8>)
    ensures
        r@ == be_u64(x),
{
    let mut v: Vec<u8> = Vec::new();
    push_be_u64(&mut v, x);
    assert(v@ =~= be_u64(x));
    v
}

/// Writes the big-endian bytes of a 32-bit integer.
pub fn be_bytes_u32(x: u32) -> (r: Vec<u8>)
    ensures
        r@ == be_u32(x),
{
    let mut v: Vec<u8> = Vec::new();
    push_be_u32(&mut v, x);
    assert(v@ =~= be_u32(x));
    v
}

/// First key of the id-mapping namespace.
pub open spec fn id_space_start_spec() -> Seq<u8> {
    seq![DOC_SPACE, DOC_SPACE_OBJECT]
}

/// End (excluded) of the id-mapping namespace.
pub open spec fn id_space_end_spec() -> Seq<u8> {
    seq![DOC_SPACE, DOC_SPACE_OBJECT_KEY]
}

/// The object id part of an id-mapping key.
pub open spec fn doc_key_name(k: Seq<u8>) -> Seq<u8> {
    if k.len() >= 10 {
        k.subrange(10, k.len() as int)
    } else {
        Seq::empty()
    }
}

/// First key of the id-mapping namespace.
pub fn make_id_space_start() -> (r: Vec<u8>)
    ensures
        r@ == id_space_start_spec(),
{
    let mut v: Vec<u8> = Vec::new();
    v.push(DOC_SPACE);
    v.push(DOC_SPACE_OBJECT);
    assert(v@ =~= id_space_start_spec());
    v
}

/// End (excluded) of the id-mapping namespace.
pub fn make_id_space_end() -> (r: Vec<u8>)
    ensures
        r@ == id_space_end_spec(),
{
    let mut v: Vec<u8> = Vec::new();
    v.push(DOC_SPACE);
    v.push(DOC_SPACE_OBJECT_KEY);
    assert(v@ =~= id_space_end_spec());
    v
}

proof fn lemma_lex_skip_equal(a: Seq<u8>, b: Seq<u8>, i: int, j: int)
    requires
        0 <= i <= j,
        j <= a.len(),
        j <= b.len(),
        forall|t: int| i <= t < j ==> a[t] == b[t],
    ensures
        lex_lt_from(a, b, i) == lex_lt_from(a, b, j),
    decreases j - i,
{
    if i < j {
        lemma_lex_skip_equal(a, b, i + 1, j);
    }
}

/// Update keys of one document sort as their clocks do.
pub proof fn lemma_update_key_order(did: DocID, c1: Clock, c2: Clock)
    ensures
        lex_lt(update_key_spec(did, c1), update_key_spec(did, c2)) == (c1 < c2),
{
    let a = update_key_spec(did, c1);
    let b = update_key_spec(did, c2);
    let p = doc_key_prefix(did).push(DOC_UPDATE);
    assert(a.len() == 15 && b.len() == 15);
    assert forall|t: int| 0 <= t < 11 implies a[t] == b[t] by {
        assert(a[t] == p[t]);
        assert(b[t] == p[t]);
    }
    lemma_lex_skip_equal(a, b, 0, 11);
    let x0 = (c1 >> 24u32) as u8;
    let x1 = (c1 >> 16u32) as u8;
    let x2 = (c1 >> 8u32) as u8;
    let x3 = c1 as u8;
    let y0 = (c2 >> 24u32) as u8;
    let y1 = (c2 >> 16u32) as u8;
    let y2 = (c2 >> 8u32) as u8;
    let y3 = c2 as u8;
    assert(a[11] == x0 && a[12] == x1 && a[13] == x2 && a[14] == x3);
    assert(b[11] == y0 && b[12] == y1 && b[13] == y2 && b[14] == y3);
    assert((c1 < c2) == (x0 < y0 || (x0 == y0 && (x1 < y1 || (x1 == y1 && (x2 < y2 || (x2 == y2
        && x3 < y3))))))) by (bit_vector)
        requires
            x0 == (c1 >> 24u32) as u8,
            x1 == (c1 >> 16u32) as u8,
            x2 == (c1 >> 8u32) as u8,
            x3 == c1 as u8,
            y0 == (c2 >> 24u32) as u8,
            y1 == (c2 >> 16u32) as u8,
            y2 == (c2 >> 8u32) as u8,
            y3 == c2 as u8,
    ;
    assert(!lex_lt_from(a, b, 15));
    assert(lex_lt_from(a, b, 14) == (x3 < y3));
    assert(lex_lt_from(a, b, 13) == (x2 < y2 || (x2 == y2 && x3 < y3)));
    assert(lex_lt_from(a, b, 12) == (x1 < y1 || (x1 == y1 && (x2 < y2 || (x2 == y2 && x3 < y3)))));
}

/// Every update key of a document below the largest clock lies in the document's range.
pub proof fn lemma_update_key_in_doc_range(did: DocID, c: Clock)
    requires
        c < Clock::MAX,
    ensures
        in_key_range(update_key_spec(did, c), update_key_spec(did, 0), update_key_spec(did, Clock::MAX)),
{
    lemma_update_key_order(did, c, 0);
    lemma_update_key_order(did, c, Clock::MAX);
}

/// Two byte strings that agree before position `i` and differ there by a smaller byte in `a`.
pub proof fn lemma_lex_prefix_then_smaller(a: Seq<u8>, b: Seq<u8>, i: int)
    requires
        0 <= i < a.len(),
        i < b.len(),
        forall|t: int| 0 <= t < i ==> a[t] == b[t],
        a[i] < b[i],
    ensures
        lex_lt(a, b),
{
    lemma_lex_skip_equal(a, b, 0, i);
}

/// Id-mapping keys sort before every per-document key and differ from all of them.
pub proof fn lemma_id_key_before_doc_keys(uid: i64, oid: Seq<u8>, did: DocID, c: Clock)
    ensures
        lex_lt(doc_id_key_spec(uid, oid), update_key_spec(did, c)),
        doc_id_key_spec(uid, oid) != doc_state_key_spec(did),
        doc_id_key_spec(uid, oid) != state_vector_key_spec(did),
        doc_id_key_spec(uid, oid) != clock_key_spec(did),
{
    let k = doc_id_key_spec(uid, oid);
    let u = update_key_spec(did, c);
    assert(k[0] == u[0] && k[1] < u[1]);
    lemma_lex_prefix_then_smaller(k, u, 1);
    assert(k[1] != doc_state_key_spec(did)[1]);
    assert(k[1] != state_vector_key_spec(did)[1]);
    assert(k[1] != clock_key_spec(did)[1]);
}

proof fn lemma_lex_trans_from(a: Seq<u8>, b: Seq<u8>, c: Seq<u8>, i: int)
    requires
        0 <= i,
        lex_lt_from(a, b, i),
        lex_lt_from(b, c, i),
    ensures
        lex_lt_from(a, c, i),
    decreases a.len() - i,
{
    if i < a.len() && i < b.len() && i < c.len() && a[i] == b[i] && b[i] == c[i] {
        lemma_lex_trans_from(a, b, c, i + 1);
    }
}

/// The byte order is transitive.
pub proof fn lemma_lex_trans(a: Seq<u8>, b: Seq<u8>, c: Seq<u8>)
    requires
        lex_lt(a, b),
        lex_lt(b, c),
    ensures
        lex_lt(a, c),
{
    lemma_lex_trans_from(a, b, c, 0);
}

/// Different integers have different big-endian bytes.
pub proof fn lemma_be_u64_injective(a: u64, b: u64)
    ensures
        (be_u64(a) == be_u64(b)) == (a == b),
{
    lemma_be_u64_round_trip(a);
    lemma_be_u64_round_trip(b);
}

/// Update keys determine their document and clock; clock keys determine their document.
pub proof fn lemma_doc_keys_injective(d1: DocID, c1: Clock, d2: DocID, c2: Clock)
    ensures
        (update_key_spec(d1, c1) == update_key_spec(d2, c2)) == (d1 == d2 && c1 == c2),
        (clock_key_spec(d1) == clock_key_spec(d2)) == (d1 == d2),
{
    lemma_be_u64_round_trip(d1);
    lemma_be_u64_round_trip(d2);
    lemma_be_u32_round_trip(c1);
    lemma_be_u32_round_trip(c2);
    if update_key_spec(d1, c1) == update_key_spec(d2, c2) {
        assert(update_key_spec(d1, c1).subrange(2, 10) =~= be_u64(d1));
        assert(update_key_spec(d2, c2).subrange(2, 10) =~= be_u64(d2));
        assert(update_key_spec(d1, c1).subrange(11, 15) =~= be_u32(c1));
        assert(update_key_spec(d2, c2).subrange(11, 15) =~= be_u32(c2));
    }
    if clock_key_spec(d1) == clock_key_spec(d2) {
        assert(clock_key_spec(d1).subrange(2, 10) =~= be_u64(d1));
        assert(clock_key_spec(d2).subrange(2, 10) =~= be_u64(d2));
    }
}

proof fn lemma_first_diff(a: Seq<u8>, b: Seq<u8>, i: int) -> (j: int)
    requires
        a.len() == 8,
        b.len() == 8,
        0 <= i <= 8,
        forall|t: int| 0 <= t < i ==> a[t] == b[t],
        a != b,
    ensures
        i <= j < 8,
        a[j] != b[j],
        forall|t: int| 0 <= t < j ==> a[t] == b[t],
    decreases 8 - i,
{
    if i == 8 {
        assert(a =~= b);
        0
    } else if a[i] != b[i] {
        i
    } else {
        lemma_first_diff(a, b, i + 1)
    }
}

/// Two byte strings that agree before position `i` and differ there by a larger byte in `a`.
pub proof fn lemma_lex_prefix_then_greater(a: Seq<u8>, b: Seq<u8>, i: int)
    requires
        0 <= i < a.len(),
        i < b.len(),
        forall|t: int| 0 <= t < i ==> a[t] == b[t],
        a[i] > b[i],
    ensures
        !lex_lt(a, b),
{
    lemma_lex_skip_equal(a, b, 0, i);
}

/// A key of another document lies outside a document's update range.
pub proof fn lemma_other_doc_outside_range(d: DocID, d2: DocID, k: Seq<u8>, c: Clock)
    requires
        d != d2,
        k.len() >= 10,
        k.subrange(0, 10) == doc_key_prefix(d2),
    ensures
        !in_key_range(k, update_key_spec(d, c), update_key_spec(d, Clock::MAX)),
{
    lemma_be_u64_injective(d, d2);
    let a = be_u64(d2);
    let b = be_u64(d);
    let j = lemma_first_diff(a, b, 0);
    let start = update_key_spec(d, c);
    let end = update_key_spec(d, Clock::MAX);
    assert forall|t: int| 0 <= t < 2 + j implies k[t] == start[t] && k[t] == end[t] by {
        assert(k[t] == doc_key_prefix(d2)[t]);
        assert(start[t] == doc_key_prefix(d)[t]);
        assert(end[t] == doc_key_prefix(d)[t]);
        if t >= 2 {
            assert(doc_key_prefix(d2)[t] == a[t - 2]);
            assert(doc_key_prefix(d)[t] == b[t - 2]);
        }
    }
    assert(k[2 + j] == doc_key_prefix(d2)[2 + j] && doc_key_prefix(d2)[2 + j] == a[j]);
    assert(start[2 + j] == b[j] && end[2 + j] == b[j]);
    if a[j] < b[j] {
        lemma_lex_prefix_then_smaller(k, start, 2 + j);
    } else {
        lemma_lex_prefix_then_greater(k, end, 2 + j);
    }
}

proof fn lemma_lex_total_from(a: Seq<u8>, b: Seq<u8>, i: int)
    requires
        0 <= i <= a.len(),
        i <= b.len(),
        a.subrange(i, a.len() as int) != b.subrange(i, b.len() as int),
    ensures
        lex_lt_from(a, b, i) || lex_lt_from(b, a, i),
    decreases a.len() - i,
{
    if i == a.len() {
        if i == b.len() {
            assert(a.subrange(i, a.len() as int) =~= b.subrange(i, b.len() as int));
        }
    } else if i < b.len() && a[i] == b[i] {
        if a.subrange(i + 1, a.len() as int) == b.subrange(i + 1, b.len() as int) {
            assert(a.subrange(i, a.len() as int) =~= seq![a[i]] + a.subrange(i + 1, a.len() as int));
            assert(b.subrange(i, b.len() as int) =~= seq![b[i]] + b.subrange(i + 1, b.len() as int));
        }
        lemma_lex_total_from(a, b, i + 1);
    }
}

proof fn lemma_lex_irrefl_from(a: Seq<u8>, i: int)
    requires
        0 <= i,
    ensures
        !lex_lt_from(a, a, i),
    decreases a.len() - i,
{
    if i < a.len() {
        lemma_lex_irrefl_from(a, i + 1);
    }
}

/// No byte string sorts before itself.
pub proof fn lemma_lex_irrefl(a: Seq<u8>)
    ensures
        !lex_lt(a, a),
{
    lemma_lex_irrefl_from(a, 0);
}

/// The byte order is total: of two different byte strings one sorts before the other.
pub proof fn lemma_lex_total(a: Seq<u8>, b: Seq<u8>)
    requires
        a != b,
    ensures
        lex_lt(a, b) || lex_lt(b, a),
{
    assert(a.subrange(0, a.len() as int) =~= a);
    assert(b.subrange(0, b.len() as int) =~= b);
    lemma_lex_total_from(a, b, 0);
}

/// Reads the eight big-endian bytes at `off`.
pub fn read_be_u64_at(b: &[u8], off: usize) -> (r: u64)
    requires
        off + 8 <= b@.len(),
    ensures
        r == u64_of_be(b@.subrange(off as int, off + 8)),
{
    let ghost s = b@.subrange(off as int, off + 8);
    assert(s[0] == b@[off as int] && s[1] == b@[off + 1] && s[2] == b@[off + 2] && s[3] == b@[off + 3]);
    assert(s[4] == b@[off + 4] && s[5] == b@[off + 5] && s[6] == b@[off + 6] && s[7] == b@[off + 7]);
    ((b[off] as u64) << 56u64) | ((b[off + 1] as u64) << 48u64) | ((b[off + 2] as u64) << 40u64)
        | ((b[off + 3] as u64) << 32u64) | ((b[off + 4] as u64) << 24u64) | ((b[off + 5] as u64) << 16u64)
        | ((b[off + 6] as u64) << 8u64) | (b[off + 7] as u64)
}

/// Reads the four big-endian bytes at `off`.
pub fn read_be_u32_at(b: &[u8], off: usize) -> (r: u32)
    requires
        off + 4 <= b@.len(),
    ensures
        r == u32_of_be(b@.subrange(off as int, off + 4)),
{
    let ghost s = b@.subrange(off as int, off + 4);
    assert(s[0] == b@[off as int] && s[1] == b@[off + 1] && s[2] == b@[off + 2] && s[3] == b@[off + 3]);
    ((b[off] as u32) << 24u32) | ((b[off + 1] as u32) << 16u32) | ((b[off + 2] as u32) << 8u32) | (b[off + 3] as u32)
}

/// `k` has the shape of an update key.
pub open spec fn is_update_key(k: Seq<u8>) -> bool {
    k.len() == 15 && k[0] == DOC_SPACE && k[1] == DOC_SPACE_OBJECT_KEY && k[10] == DOC_UPDATE
}

/// The DocID part of a per-document key.
pub open spec fn key_doc(k: Seq<u8>) -> DocID {
    u64_of_be(k.subrange(2, 10))
}

/// The clock part of an update key.
pub open spec fn key_clock(k: Seq<u8>) -> Clock {
    u32_of_be(k.subrange(11, 15))
}

/// `k` has the shape of an id-mapping key.
pub open spec fn is_id_key(k: Seq<u8>) -> bool {
    k.len() >= 10 && k[0] == DOC_SPACE && k[1] == DOC_SPACE_OBJECT
}

/// Update keys and id-mapping keys read back as what they were made of.
pub proof fn lemma_key_shapes(d: DocID, c: Clock, uid: i64, oid: Seq<u8>)
    ensures
        is_update_key(update_key_spec(d, c)),
        key_doc(update_key_spec(d, c)) == d,
        key_clock(update_key_spec(d, c)) == c,
        is_id_key(doc_id_key_spec(uid, oid)),
{
    lemma_be_u64_round_trip(d);
    lemma_be_u32_round_trip(c);
    assert(update_key_spec(d, c).subrange(2, 10) =~= be_u64(d));
    assert(update_key_spec(d, c).subrange(11, 15) =~= be_u32(c));
}

/// Reading eight bytes big-endian and writing the integer back gives the bytes.
pub proof fn lemma_be_u64_of_bytes(b: Seq<u8>)
    requires
        b.len() == 8,
    ensures
        be_u64(u64_of_be(b)) == b,
{
    let x = u64_of_be(b);
    let (b0, b1, b2, b3, b4, b5, b6, b7) = (b[0], b[1], b[2], b[3], b[4], b[5], b[6], b[7]);
    assert((x >> 56u64) as u8 == b0 && (x >> 48u64) as u8 == b1 && (x >> 40u64) as u8 == b2 && (x >> 32u64) as u8 == b3
        && (x >> 24u64) as u8 == b4 && (x >> 16u64) as u8 == b5 && (x >> 8u64) as u8 == b6 && x as u8 == b7) by (bit_vector)
        requires
            x == ((b0 as u64) << 56u64) | ((b1 as u64) << 48u64) | ((b2 as u64) << 40u64) | ((b3 as u64) << 32u64)
                | ((b4 as u64) << 24u64) | ((b5 as u64) << 16u64) | ((b6 as u64) << 8u64) | (b7 as u64),
    ;
    assert(be_u64(x) =~= b);
}

/// Reading four bytes big-endian and writing the integer back gives the bytes.
pub proof fn lemma_be_u32_of_bytes(b: Seq<u8>)
    requires
        b.len() == 4,
    ensures
        be_u32(u32_of_be(b)) == b,
{
    let x = u32_of_be(b);
    let (b0, b1, b2, b3) = (b[0], b[1], b[2], b[3]);
    assert((x >> 24u32) as u8 == b0 && (x >> 16u32) as u8 == b1 && (x >> 8u32) as u8 == b2 && x as u8 == b3) by (bit_vector)
        requires
            x == ((b0 as u32) << 24u32) | ((b1 as u32) << 16u32) | ((b2 as u32) << 8u32) | (b3 as u32),
    ;
    assert(be_u32(x) =~= b);
}

/// A key of update shape is the update key of its own DocID and clock.
pub proof fn lemma_update_key_of_shape(k: Seq<u8>)
    requires
        is_update_key(k),
    ensures
        k == update_key_spec(key_doc(k), key_clock(k)),
{
    lemma_be_u64_of_bytes(k.subrange(2, 10));
    lemma_be_u32_of_bytes(k.subrange(11, 15));
    assert(k =~= update_key_spec(key_doc(k), key_clock(k)));
}

} // verus!
