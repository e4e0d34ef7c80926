//! An in-memory key-value store over byte strings, with the operations the document
//! log needs: point reads and writes, removal of a half-open key range, and a scan.
use vstd::prelude::*;

use crate::keys::{in_key_range, key_in_range};

verus! {

/// A byte-keyed store. Its view is the map from keys to values that it holds.
pub struct MemKv {
    entries: Vec<(Vec<u8>, Vec<u8>)>,
    contents: Ghost<Map<Seq<u8>, Seq<u8>>>,
}

impl View for MemKv {
    type V = Map<Seq<u8>, Seq<u8>>;

    closed spec fn view(&self) -> Map<Seq<u8>, Seq<u8>> {
        self.contents@
    }
}

/// The restriction of a store's contents to the keys outside `[lo, hi)`.
pub open spec fn without_range(m: Map<Seq<u8>, Seq<u8>>, lo: Seq<u8>, hi: Seq<u8>) -> Map<
    Seq<u8>,
    Seq<u8>,
> {
    Map::new(|k: Seq<u8>| m.contains_key(k) && !in_key_range(k, lo, hi), |k: Seq<u8>| m[k])
}

impl MemKv {
    /// The entries and the map they stand for agree, and no key occurs twice.
    pub closed spec fn wf(&self) -> bool {
        let e = self.entries@;
        let m = self.contents@;
        &&& forall|i: int|
            0 <= i < e.len() ==> #[trigger] m.contains_key(e[i].0@) && m[e[i].0@] == e[i].1@
        &&& forall|k: Seq<u8>|
            m.contains_key(k) ==> exists|i: int| 0 <= i < e.len() && #[trigger] e[i].0@ == k
        &&& forall|i: int, j: int|
            0 <= i < e.len() && 0 <= j < e.len() && i != j ==> e[i].0@ != e[j].0@
    }

    /// An empty store.
    pub fn new() -> (r: Self)
        ensures
            r.wf(),
            r@ == Map::<Seq<u8>, Seq<u8>>::empty(),
    {
        MemKv { entries: Vec::new(), contents: Ghost(Map::empty()) }
    }

    fn find(&self, key: &[u8]) -> (r: Option<usize>)
        requires
            self.wf(),
        ensures
            match r {
                Some(i) => i < self.entries@.len() && self.entries@[i as int].0@ == key@,
                None => !self@.contains_key(key@),
            },
    {
        let mut i: usize = 0;
        while i < self.entries.len()
            invariant
                self.wf(),
                i <= self.entries@.len(),
                forall|j: int| 0 <= j < i ==> self.entries@[j].0@ != key@,
            decreases self.entries@.len() - i,
        {
            if bytes_eq(self.entries[i].0.as_slice(), key) {
                return Some(i);
            }
            i = i + 1;
        }
        None
    }

    /// The value stored under `key`, if any.
    pub fn get(&self, key: &[u8]) -> (r: Option<Vec<u8>>)
        requires
            self.wf(),
        ensures
            match r {
                Some(v) => self@.contains_key(key@) && v@ == self@[key@],
                None => !self@.contains_key(key@),
            },
    {
        match self.find(key) {
            Some(i) => {
                let v = self.entries[i].1.clone();
                assert(self@.contains_key(self.entries@[i as int].0@));
                Some(v)
            },
            None => None,
        }
    }

    /// Whether an entry is stored under `key`.
    pub fn contains(&self, key: &[u8]) -> (r: bool)
        requires
            self.wf(),
        ensures
            r == self@.contains_key(key@),
    {
        match self.find(key) {
            Some(i) => {
                assert(self@.contains_key(self.entries@[i as int].0@));
                true
            },
            None => false,
        }
    }

    /// Stores `value` under `key`, replacing what was there.
    pub fn insert(&mut self, key: Vec<u8>, value: Vec<u8>)
        requires
            old(self).wf(),
        ensures
            final(self).wf(),
            final(self)@ == old(self)@.insert(key@, value@),
    {
        let ghost k = key@;
        let ghost v = value@;
        let ghost m = self.contents@.insert(k, v);
        match self.find(key.as_slice()) {
            Some(i) => {
                self.entries.set(i, (key, value));
                self.contents = Ghost(m);
                assert forall|kk: Seq<u8>| m.contains_key(kk) implies exists|j: int|
                    0 <= j < self.entries@.len() && #[trigger] self.entries@[j].0@ == kk by {
                    if kk == k {
                        assert(self.entries@[i as int].0@ == kk);
                    } else {
                        let j = choose|j: int|
                            0 <= j < old(self).entries@.len() && #[trigger] old(self).entries@[j].0@ == kk;
                        assert(self.entries@[j].0@ == kk);
                    }
                }
            },
            None => {
                self.entries.push((key, value));
                self.contents = Ghost(m);
                assert forall|kk: Seq<u8>| m.contains_key(kk) implies exists|j: int|
                    0 <= j < self.entries@.len() && #[trigger] self.entries@[j].0@ == kk by {
                    if kk == k {
                        assert(self.entries@[self.entries@.len() - 1].0@ == kk);
                    } else {
                        let j = choose|j: int|
                            0 <= j < old(self).entries@.len() && #[trigger] old(self).entries@[j].0@ == kk;
                        assert(self.entries@[j].0@ == kk);
                    }
                }
            },
        }
    }

    /// Removes the entry under `key`, if there is one.
    pub fn remove(&mut self, key: &[u8])
        requires
            old(self).wf(),
        ensures
            final(self).wf(),
            final(self)@ == old(self)@.remove(key@),
    {
        let ghost m = self.contents@.remove(key@);
        match self.find(key) {
            Some(i) => {
                let ghost e = self.entries@;
                let _ = self.entries.remove(i);
                self.contents = Ghost(m);
                assert forall|j: int| 0 <= j < self.entries@.len() implies #[trigger] m.contains_key(
                    self.entries@[j].0@,
                ) && m[self.entries@[j].0@] == self.entries@[j].1@ by {
                    if j < i {
                        assert(self.entries@[j] == e[j]);
                    } else {
                        assert(self.entries@[j] == e[j + 1]);
                    }
                }
                assert forall|kk: Seq<u8>| m.contains_key(kk) implies exists|j: int|
                    0 <= j < self.entries@.len() && #[trigger] self.entries@[j].0@ == kk by {
                    let j = choose|j: int| 0 <= j < e.len() && #[trigger] e[j].0@ == kk;
                    if j < i {
                        assert(self.entries@[j].0@ == kk);
                    } else {
                        assert(self.entries@[j - 1].0@ == kk);
                    }
                }
                assert forall|a: int, b: int|
                    0 <= a < self.entries@.len() && 0 <= b < self.entries@.len() && a != b
                    implies self.entries@[a].0@ != self.entries@[b].0@ by {
                    let a0 = if a < i { a } else { a + 1 };
                    let b0 = if b < i { b } else { b + 1 };
                    assert(self.entries@[a] == e[a0]);
                    assert(self.entries@[b] == e[b0]);
                }
            },
            None => {
                assert(m =~= self.contents@);
            },
        }
    }

    /// Removes every entry whose key lies in `[lo, hi)`.
    pub fn remove_range(&mut self, lo: &[u8], hi: &[u8])
        requires
            old(self).wf(),
        ensures
            final(self).wf(),
            final(self)@ == without_range(old(self)@, lo@, hi@),
    {
        let ghost m = without_range(self.contents@, lo@, hi@);
        let ghost e = self.entries@;
        let mut kept: Vec<(Vec<u8>, Vec<u8>)> = Vec::new();
        let mut i: usize = 0;
        while i < self.entries.len()
            invariant
                self.wf(),
                self.entries@ == e,
                self@ == old(self)@,
                m == without_range(old(self)@, lo@, hi@),
                i <= e.len(),
                forall|j: int|
                    0 <= j < kept@.len() ==> m.contains_key(#[trigger] kept@[j].0@) && m[kept@[j].0@]
                        == kept@[j].1@,
                forall|j: int|
                    0 <= j < kept@.len() ==> exists|t: int|
                        0 <= t < i && e[t].0@ == (#[trigger] kept@[j]).0@,
                forall|t: int|
                    0 <= t < i && !in_key_range(#[trigger] e[t].0@, lo@, hi@) ==> exists|j: int|
                        0 <= j < kept@.len() && kept@[j].0@ == e[t].0@,
                forall|a: int, b: int|
                    0 <= a < kept@.len() && 0 <= b < kept@.len() && a != b ==> kept@[a].0@
                        != kept@[b].0@,
            decreases e.len() - i,
        {
            let inr = key_in_range(self.entries[i].0.as_slice(), lo, hi);
            if !inr {
                let ghost before = kept@;
                let k = self.entries[i].0.clone();
                let v = self.entries[i].1.clone();
                assert(self@.contains_key(e[i as int].0@));
                kept.push((k, v));
                assert forall|a: int, b: int|
                    0 <= a < kept@.len() && 0 <= b < kept@.len() && a != b
                    implies kept@[a].0@ != kept@[b].0@ by {
                    if a == before.len() {
                        assert(kept@[b] == before[b]);
                        let t = choose|t: int| 0 <= t < i && e[t].0@ == (#[trigger] before[b]).0@;
                    } else if b == before.len() {
                        assert(kept@[a] == before[a]);
                        let t = choose|t: int| 0 <= t < i && e[t].0@ == (#[trigger] before[a]).0@;
                    }
                }
                assert forall|j: int| 0 <= j < kept@.len() implies m.contains_key(
                    #[trigger] kept@[j].0@,
                ) && m[kept@[j].0@] == kept@[j].1@ by {
                    if j < before.len() {
                        assert(kept@[j] == before[j]);
                    } else {
                        assert(!in_key_range(e[i as int].0@, lo@, hi@));
                        assert(old(self)@.contains_key(e[i as int].0@));
                        assert(m.contains_key(e[i as int].0@));
                        assert(kept@[j].0@ == e[i as int].0@);
                    }
                }
                assert forall|j: int| 0 <= j < kept@.len() implies exists|t: int|
                    0 <= t < i + 1 && e[t].0@ == (#[trigger] kept@[j]).0@ by {
                    if j == before.len() {
                        assert(e[i as int].0@ == kept@[j].0@);
                    } else {
                        assert(kept@[j] == before[j]);
                        let t = choose|t: int| 0 <= t < i && e[t].0@ == (#[trigger] before[j]).0@;
                    }
                }
                assert forall|t: int| 0 <= t < i + 1 && !in_key_range(#[trigger] e[t].0@, lo@, hi@)
                    implies exists|j: int| 0 <= j < kept@.len() && kept@[j].0@ == e[t].0@ by {
                    if t == i {
                        assert(kept@[before.len() as int].0@ == e[t].0@);
                    } else {
                        let j = choose|j: int| 0 <= j < before.len() && before[j].0@ == e[t].0@;
                        assert(kept@[j] == before[j]);
                    }
                }
            }
            i = i + 1;
        }
        let ghost kv = kept@;
        assert forall|kk: Seq<u8>| m.contains_key(kk) implies exists|j: int|
            0 <= j < kv.len() && #[trigger] kv[j].0@ == kk by {
            assert(old(self)@.contains_key(kk));
            let t = choose|t: int| 0 <= t < e.len() && #[trigger] e[t].0@ == kk;
            assert(!in_key_range(e[t].0@, lo@, hi@));
            let j = choose|j: int| 0 <= j < kv.len() && kv[j].0@ == e[t].0@;
            assert(kv[j].0@ == kk);
        }
        assert forall|j: int| 0 <= j < kv.len() implies #[trigger] m.contains_key(kv[j].0@)
            && m[kv[j].0@] == kv[j].1@ by {
            assert(m.contains_key(kv[j].0@));
        }
        self.entries = kept;
        self.contents = Ghost(m);
        assert(self.entries@ == kv);
        assert(forall|a: int, b: int|
            0 <= a < kv.len() && 0 <= b < kv.len() && a != b ==> kv[a].0@ != kv[b].0@);
        assert(forall|kk: Seq<u8>|
            m.contains_key(kk) ==> exists|j: int| 0 <= j < kv.len() && #[trigger] kv[j].0@ == kk);
    }

    /// The entries whose keys lie in `[lo, hi)`, each once.
    pub fn range(&self, lo: &[u8], hi: &[u8]) -> (r: Vec<(Vec<u8>, Vec<u8>)>)
        requires
            self.wf(),
        ensures
            forall|j: int|
                0 <= j < r@.len() ==> in_key_range(#[trigger] r@[j].0@, lo@, hi@)
                    && self@.contains_key(r@[j].0@) && self@[r@[j].0@] == r@[j].1@,
            forall|k: Seq<u8>|
                #[trigger] self@.contains_key(k) && in_key_range(k, lo@, hi@) ==> exists|j: int|
                    0 <= j < r@.len() && r@[j].0@ == k,
            forall|a: int, b: int|
                0 <= a < r@.len() && 0 <= b < r@.len() && a != b ==> r@[a].0@ != r@[b].0@,
    {
        let ghost e = self.entries@;
        let mut out: Vec<(Vec<u8>, Vec<u8>)> = Vec::new();
        let mut i: usize = 0;
        while i < self.entries.len()
            invariant
                self.wf(),
                i <= e.len(),
                self.entries@ == e,
                forall|j: int|
                    0 <= j < out@.len() ==> in_key_range(#[trigger] out@[j].0@, lo@, hi@)
                        && self@.contains_key(out@[j].0@) && self@[out@[j].0@] == out@[j].1@
                        && exists|t: int| 0 <= t < i && e[t].0@ == out@[j].0@,
                forall|t: int|
                    0 <= t < i && in_key_range(#[trigger] e[t].0@, lo@, hi@) ==> exists|j: int|
                        0 <= j < out@.len() && out@[j].0@ == e[t].0@,
                forall|a: int, b: int|
                    0 <= a < out@.len() && 0 <= b < out@.len() && a != b ==> out@[a].0@
                        != out@[b].0@,
            decreases e.len() - i,
        {
            if key_in_range(self.entries[i].0.as_slice(), lo, hi) {
                let ghost before = out@;
                let k = self.entries[i].0.clone();
                let v = self.entries[i].1.clone();
                assert(self@.contains_key(e[i as int].0@));
                out.push((k, v));
                assert forall|a: int, b: int|
                    0 <= a < out@.len() && 0 <= b < out@.len() && a != b
                    implies out@[a].0@ != out@[b].0@ by {
                    if a == before.len() {
                        let t = choose|t: int| 0 <= t < i && e[t].0@ == out@[b].0@;
                    } else if b == before.len() {
                        let t = choose|t: int| 0 <= t < i && e[t].0@ == out@[a].0@;
                    }
                }
                assert forall|j: int| 0 <= j < out@.len() implies in_key_range(
                    #[trigger] out@[j].0@,
                    lo@,
                    hi@,
                ) && self@.contains_key(out@[j].0@) && self@[out@[j].0@] == out@[j].1@ && exists|t: int|
                    0 <= t < i + 1 && e[t].0@ == out@[j].0@ by {
                    if j == before.len() {
                        assert(e[i as int].0@ == out@[j].0@);
                    } else {
                        assert(out@[j] == before[j]);
                    }
                }
                assert forall|t: int| 0 <= t < i + 1 && in_key_range(#[trigger] e[t].0@, lo@, hi@)
                    implies exists|j: int| 0 <= j < out@.len() && out@[j].0@ == e[t].0@ by {
                    if t == i {
                        assert(out@[before.len() as int].0@ == e[t].0@);
                    } else {
                        let j = choose|j: int| 0 <= j < before.len() && before[j].0@ == e[t].0@;
                        assert(out@[j] == before[j]);
                    }
                }
            }
            i = i + 1;
        }
        assert forall|k: Seq<u8>| #[trigger] self@.contains_key(k) && in_key_range(k, lo@, hi@)
            implies exists|j: int| 0 <= j < out@.len() && out@[j].0@ == k by {
            let t = choose|t: int| 0 <= t < e.len() && #[trigger] e[t].0@ == k;
        }
        out
    }

    /// Every entry of the store, each key once.
    pub fn entries(&self) -> (r: Vec<(Vec<u8>, Vec<u8>)>)
        requires
            self.wf(),
        ensures
            forall|j: int| 0 <= j < r@.len() ==> self@.contains_key(#[trigger] r@[j].0@) && self@[r@[j].0@] == r@[j].1@,
            forall|k: Seq<u8>| #[trigger] self@.contains_key(k) ==> exists|j: int| 0 <= j < r@.len() && r@[j].0@ == k,
            forall|a: int, b: int| 0 <= a < r@.len() && 0 <= b < r@.len() && a != b ==> r@[a].0@ != r@[b].0@,
    {
        let mut out: Vec<(Vec<u8>, Vec<u8>)> = Vec::new();
        let mut i: usize = 0;
        while i < self.entries.len()
            invariant
                self.wf(),
                i <= self.entries@.len(),
                out@.len() == i,
                forall|j: int| 0 <= j < i ==> (#[trigger] out@[j]).0@ == self.entries@[j].0@ && out@[j].1@ == self.entries@[j].1@,
            decreases self.entries@.len() - i,
        {
            out.push((self.entries[i].0.clone(), self.entries[i].1.clone()));
            i = i + 1;
        }
        assert forall|j: int| 0 <= j < out@.len() implies self@.contains_key(#[trigger] out@[j].0@) && self@[out@[j].0@] == out@[j].1@ by {
            assert(out@[j].0@ == self.entries@[j].0@);
        }
        assert forall|k: Seq<u8>| #[trigger] self@.contains_key(k) implies exists|j: int| 0 <= j < out@.len() && out@[j].0@ == k by {
            let j = choose|j: int| 0 <= j < self.entries@.len() && #[trigger] self.entries@[j].0@ == k;
            assert(out@[j].0@ == k);
        }
        assert forall|a: int, b: int| 0 <= a < out@.len() && 0 <= b < out@.len() && a != b implies out@[a].0@ != out@[b].0@ by {
            assert(out@[a].0@ == self.entries@[a].0@ && out@[b].0@ == self.entries@[b].0@);
        }
        out
    }
}

/// Byte-wise equality of two byte strings.
pub fn bytes_eq(a: &[u8], b: &[u8]) -> (r: bool)
    ensures
        r == (a@ == b@),
{
    if a.len() != b.len() {
        return false;
    }
    let mut i: usize = 0;
    while i < a.len()
        invariant
            a@.len() == b@.len(),
            i <= a@.len(),
            forall|j: int| 0 <= j < i ==> a@[j] == b@[j],
        decreases a@.len() - i,
    {
        if a[i] != b[i] {
            return false;
        }
        i = i + 1;
    }
    assert(a@ =~= b@);
    true
}

} // verus!
