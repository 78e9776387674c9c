//! The mapping service: stores a URL under a fresh identifier and hands
//! out its token; resolves a token back to the stored URL.
//!
//! All durable state lives in the record store, a sequence-backed
//! key/value store that assigns identifiers at insertion time. The
//! service itself holds no other state: each operation is one round trip
//! through the store and the codec.

use vstd::prelude::*;

use crate::encoder::{decode, encode, is_valid_token, spec_decode, spec_encode};
use crate::errors::ShortyError;

verus! {

/// The record store: URL records keyed by the non-negative identifier
/// assigned at insertion. Records are immutable once created and are
/// never reused or deleted; the identifier of a record is its position.
pub struct UrlStore {
    records: Vec<String>,
}

impl View for UrlStore {
    type V = Seq<Seq<char>>;

    closed spec fn view(&self) -> Seq<Seq<char>> {
        Seq::new(self.records@.len(), |i: int| self.records@[i]@)
    }
}

impl UrlStore {
    /// An empty store.
    pub fn new() -> (s: Self)
        ensures
            s@ == Seq::<Seq<char>>::empty(),
    {
        let s = UrlStore { records: Vec::new() };
        proof {
            assert(s@ =~= Seq::<Seq<char>>::empty());
        }
        s
    }

    /// Appends a record and returns its freshly assigned identifier;
    /// fails exactly when the next identifier would not fit in 63 bits.
    pub fn insert(&mut self, url: String) -> (r: Result<i64, ShortyError>)
        ensures
            match r {
                Ok(id) => old(self)@.len() <= i64::MAX && id as int == old(self)@.len()
                    && final(self)@ == old(self)@.push(url@),
                Err(e) => e == ShortyError::StorageError && old(self)@.len() > i64::MAX
                    && final(self)@ == old(self)@,
            },
    {
        let len = self.records.len();
        if len as u64 <= i64::MAX as u64 {
            self.records.push(url);
            proof {
                assert(self@ =~= old(self)@.push(self.records@[len as int]@));
            }
            Ok(len as i64)
        } else {
            Err(ShortyError::StorageError)
        }
    }

    /// Looks an identifier up; returns the stored URL exactly when a
    /// record with that identifier exists.
    pub fn lookup(&self, id: i64) -> (r: Option<String>)
        ensures
            match r {
                Some(url) => 0 <= id < self@.len() && url@ == self@[id as int],
                None => !(0 <= id < self@.len()),
            },
    {
        if 0 <= id && (id as u64) < (self.records.len() as u64) {
            let idx = id as usize;
            Some(self.records[idx].clone())
        } else {
            None
        }
    }
}

/// The mapping service: bridges external tokens and URLs to the record
/// store's integer-keyed records through the codec.
pub struct UrlService {
    store: UrlStore,
}

impl View for UrlService {
    type V = Seq<Seq<char>>;

    closed spec fn view(&self) -> Seq<Seq<char>> {
        self.store@
    }
}

impl UrlService {
    /// A service over an empty store.
    pub fn new() -> (s: Self)
        ensures
            s@ == Seq::<Seq<char>>::empty(),
    {
        UrlService { store: UrlStore::new() }
    }

    /// Stores a URL under a fresh identifier and returns that
    /// identifier's canonical token. Two stores of the same URL get two
    /// distinct identifiers, and so two distinct tokens, by design.
    pub fn store(&mut self, url: String) -> (r: Result<String, ShortyError>)
        ensures
            match r {
                Ok(token) => old(self)@.len() <= i64::MAX && final(self)@ == old(self)@.push(url@)
                    && token@ == spec_encode(old(self)@.len() as int),
                Err(e) => e == ShortyError::StorageError && old(self)@.len() > i64::MAX
                    && final(self)@ == old(self)@,
            },
    {
        match self.store.insert(url) {
            Ok(id) => Ok(encode(id)),
            Err(e) => Err(e),
        }
    }

    /// Resolves a token: decodes it and looks the identifier up. A
    /// malformed token fails with `InvalidToken`; a well-formed token
    /// whose identifier has no record is not an error and resolves to
    /// `None`.
    pub fn resolve(&self, token: &str) -> (r: Result<Option<String>, ShortyError>)
        ensures
            match r {
                Ok(Some(url)) => is_valid_token(token@) && 0 <= spec_decode(token@) < self@.len()
                    && url@ == self@[spec_decode(token@)],
                Ok(None) => is_valid_token(token@) && 0 <= spec_decode(token@) <= i64::MAX
                    && spec_decode(token@) >= self@.len(),
                Err(e) => e == ShortyError::InvalidToken && (!is_valid_token(token@) || spec_decode(
                    token@,
                ) > i64::MAX),
            },
    {
        let id = match decode(token) {
            Ok(id) => id,
            Err(e) => {
                return Err(e);
            },
        };
        Ok(self.store.lookup(id))
    }
}

} // verus!
