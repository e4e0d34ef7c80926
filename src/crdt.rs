//! The replicated document as the log store sees it: something that takes encoded updates
//! and can encode its whole state, and the record of every update handed to it together
//! with whether it was accepted.
use vstd::prelude::*;

verus! {

/// A CRDT document that encoded updates are merged into. Implementations decide how an
/// update is decoded and integrated; the library only records what it handed over.
pub trait UpdateTarget {
    /// Merges one v1-encoded update; returns whether it was accepted.
    fn apply_update(&mut self, update: &[u8]) -> bool;

    /// The whole document as one v1-encoded update, relative to the empty state vector.
    fn encode_state(&self) -> Vec<u8>;

    /// The document's state vector, v1-encoded.
    fn encode_state_vector(&self) -> Vec<u8>;
}

/// A document being filled from the log. Its view is the sequence of updates handed to
/// `apply_update`, each with whether the document accepted it.
pub struct Document<T> {
    target: T,
    attempts: Ghost<Seq<(Seq<u8>, bool)>>,
}

impl<T: UpdateTarget> Document<T> {
    pub closed spec fn view(&self) -> Seq<(Seq<u8>, bool)> {
        self.attempts@
    }

    /// Wraps a document; nothing has been handed to it yet.
    pub fn new(target: T) -> (r: Self)
        ensures
            r.view() == Seq::<(Seq<u8>, bool)>::empty(),
    {
        Document { target, attempts: Ghost(Seq::empty()) }
    }

    /// The wrapped document.
    pub fn target(&self) -> &T {
        &self.target
    }

    /// Unwraps the document.
    pub fn into_target(self) -> T {
        self.target
    }

    /// Hands `update` to the document and records whether it was accepted.
    pub fn apply_update(&mut self, update: &[u8]) -> (r: bool)
        ensures
            final(self).view() == old(self).view().push((update@, r)),
    {
        let accepted = self.target.apply_update(update);
        self.attempts = Ghost(self.attempts@.push((update@, accepted)));
        accepted
    }

    /// The document's whole state, encoded.
    pub fn encode_state(&self) -> Vec<u8> {
        self.target.encode_state()
    }

    /// The document's state vector, encoded.
    pub fn encode_state_vector(&self) -> Vec<u8> {
        self.target.encode_state_vector()
    }
}

} // verus!
