//! The storage engine: a key-to-record store and a key-to-expiration
//! store, with lazy per-key eviction. A key whose expiration instant is
//! strictly in the past is semantically absent: any read evicts it from
//! both mappings before answering.
//!
//! Instants are plain `u64` values; the caller supplies the current
//! instant to every operation that must judge expiration.

use vstd::prelude::*;
use vstd::hash_map::StringHashMap;
use crate::record::Record;
use crate::record::RecordModel;
use crate::record::record_clone;

verus! {

broadcast use vstd::std_specs::vec::group_vec_axioms;

/// The two mappings of the storage engine, as mathematical maps.
#[verifier::ext_equal]
pub struct RepoModel {
    pub store: Map<Seq<char>, RecordModel>,
    pub expires: Map<Seq<char>, u64>,
}

/// The key has an expiration strictly before `now`.
pub open spec fn expired_at(m: RepoModel, k: Seq<char>, now: u64) -> bool {
    m.expires.contains_key(k) && m.expires[k] < now
}

/// The key is present and not expired.
pub open spec fn live_at(m: RepoModel, k: Seq<char>, now: u64) -> bool {
    m.store.contains_key(k) && !expired_at(m, k, now)
}

/// The state after any read of `k`: an expired key is evicted from both
/// mappings, anything else is untouched.
pub open spec fn after_read(m: RepoModel, k: Seq<char>, now: u64) -> RepoModel {
    if expired_at(m, k, now) {
        RepoModel { store: m.store.remove(k), expires: m.expires.remove(k) }
    } else {
        m
    }
}

/// What a read of `k` returns: the record while the key is live, nothing
/// otherwise.
pub open spec fn read_value(m: RepoModel, k: Seq<char>, now: u64) -> Option<RecordModel> {
    if live_at(m, k, now) {
        Some(m.store[k])
    } else {
        None
    }
}

pub struct Repository {
    store: StringHashMap<Record>,
    expires: StringHashMap<u64>,
}

impl View for Repository {
    type V = RepoModel;

    closed spec fn view(&self) -> RepoModel {
        RepoModel {
            store: self.store@.map_values(|r: Record| r@),
            expires: self.expires@,
        }
    }
}

impl Repository {
    /// Every stored hash record has distinct fields.
    pub closed spec fn wf(&self) -> bool {
        forall|k: Seq<char>|
            self.store@.contains_key(k) ==> (#[trigger] self.store@[k]).wf()
    }

    pub fn new() -> (r: Self)
        ensures
            r.wf(),
            r@.store == Map::<Seq<char>, RecordModel>::empty(),
            r@.expires == Map::<Seq<char>, u64>::empty(),
    {
        let r = Repository { store: StringHashMap::new(), expires: StringHashMap::new() };
        proof {
            assert(r@.store =~= Map::<Seq<char>, RecordModel>::empty());
        }
        r
    }

    /// Unconditional upsert of the record; expirations are untouched.
    pub fn set(&mut self, key: String, record: Record)
        requires
            old(self).wf(),
            record.wf(),
        ensures
            final(self).wf(),
            final(self)@.store == old(self)@.store.insert(key@, record@),
            final(self)@.expires == old(self)@.expires,
    {
        let ghost prior = self.store@;
        self.store.insert(key, record);
        proof {
            assert(final(self)@.store =~= old(self)@.store.insert(key@, record@));
        }
    }

    /// The key carries an expiration instant strictly before `now`.
    pub fn is_expired(&self, key: &String, now: u64) -> (r: bool)
        ensures
            r == expired_at(self@, key@, now),
    {
        match self.expires.get(key.as_str()) {
            Some(expiration) => now > *expiration,
            None => false,
        }
    }

    /// Removes the key from both mappings; idempotent. Returns the
    /// record that was stored, if any.
    pub fn delete(&mut self, key: String) -> (r: Option<Record>)
        requires
            old(self).wf(),
        ensures
            final(self).wf(),
            final(self)@.store == old(self)@.store.remove(key@),
            final(self)@.expires == old(self)@.expires.remove(key@),
            match r {
                Some(rec) => old(self)@.store.contains_key(key@) && rec@ == old(
                    self,
                )@.store[key@] && rec.wf(),
                None => !old(self)@.store.contains_key(key@),
            },
    {
        let prior = match self.store.get(key.as_str()) {
            Some(rec) => Some(record_clone(rec)),
            None => None,
        };
        self.expires.remove(key.as_str());
        self.store.remove(key.as_str());
        proof {
            assert(final(self)@.store =~= old(self)@.store.remove(key@));
        }
        prior
    }

    /// A read with lazy eviction: an expired key is removed from both
    /// mappings and reported absent; a live key's record is returned by
    /// copy.
    pub fn get(&mut self, key: String, now: u64) -> (r: Option<Record>)
        requires
            old(self).wf(),
        ensures
            final(self).wf(),
            final(self)@ == after_read(old(self)@, key@, now),
            match r {
                Some(rec) => read_value(old(self)@, key@, now) == Some(rec@) && rec.wf(),
                None => read_value(old(self)@, key@, now) is None,
            },
    {
        if self.is_expired(&key, now) {
            self.delete(key);
            return None;
        }
        match self.store.get(key.as_str()) {
            Some(rec) => Some(record_clone(rec)),
            None => None,
        }
    }

    /// Empties both mappings.
    pub fn clear(&mut self)
        ensures
            final(self).wf(),
            final(self)@.store == Map::<Seq<char>, RecordModel>::empty(),
            final(self)@.expires == Map::<Seq<char>, u64>::empty(),
    {
        self.store.clear();
        self.expires.clear();
        proof {
            assert(final(self)@.store =~= Map::<Seq<char>, RecordModel>::empty());
        }
    }

    /// Records an expiration instant for the key, but only if a read
    /// (with its usual lazy eviction) finds the key present.
    pub fn set_expiration(&mut self, key: String, time: u64, now: u64)
        requires
            old(self).wf(),
        ensures
            final(self).wf(),
            final(self)@.store == after_read(old(self)@, key@, now).store,
            final(self)@.expires == (if read_value(old(self)@, key@, now) is Some {
                after_read(old(self)@, key@, now).expires.insert(key@, time)
            } else {
                after_read(old(self)@, key@, now).expires
            }),
    {
        let present = self.get(key.clone(), now);
        if present.is_some() {
            self.expires.insert(key, time);
        }
    }

    /// How many keys the record store holds.
    pub fn store_len(&self) -> (n: usize)
        ensures
            n == self@.store.len(),
    {
        proof {
            assert(self.store@.dom() =~= self@.store.dom());
        }
        self.store.len()
    }

    /// How many keys carry an expiration instant.
    pub fn expires_len(&self) -> (n: usize)
        ensures
            n == self@.expires.len(),
    {
        self.expires.len()
    }
}

} // verus!
