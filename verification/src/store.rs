use vstd::prelude::*;

use std::collections::HashMap;

use crate::exception::Exception;
use crate::token::{TokenRecord, TokenV};

verus! {

broadcast use vstd::std_specs::hash::group_hash_axioms;

/// A resource held by the cache store: tokens and simulations share one flat
/// keyspace, keyed by resource id only.
#[derive(PartialEq, Debug)]
pub enum Resource {
    /// A cached token.
    TokenRecord(TokenRecord),
    /// A cached simulation, as the rendered text the engine's run produced.
    Simulation(String),
}

/// The mathematical value of a cached resource.
#[verifier::ext_equal]
pub enum ResourceV {
    /// A cached token.
    TokenRecord(TokenV),
    /// A cached simulation body.
    Simulation(Seq<char>),
}

impl View for Resource {
    type V = ResourceV;

    open spec fn view(&self) -> ResourceV {
        match self {
            Resource::TokenRecord(t) => ResourceV::TokenRecord(t@),
            Resource::Simulation(s) => ResourceV::Simulation(s@),
        }
    }
}

/// What a delete of `key` reports on a store holding `m`: the number of
/// entries removed.
pub open spec fn delete_count(m: Map<u128, (ResourceV, Option<u64>)>, key: u128) -> int {
    if m.contains_key(key) {
        1
    } else {
        0
    }
}

/// An in-memory key/value store with the capability set the resource
/// handlers need: get, set with an optional time-to-live, delete and an
/// existence test.
///
/// Its view is the map from resource id to the held resource and the
/// time-to-live, in seconds, the entry was written with; `None` marks a
/// non-expiring entry. Expiry itself is the cache backend's work and lies
/// outside this model.
pub struct MemoryStore {
    entries: HashMap<u128, (Resource, Option<u64>)>,
}

impl View for MemoryStore {
    type V = Map<u128, (ResourceV, Option<u64>)>;

    closed spec fn view(&self) -> Map<u128, (ResourceV, Option<u64>)> {
        self.entries@.map_values(|p: (Resource, Option<u64>)| (p.0@, p.1))
    }
}

impl MemoryStore {
    /// An empty store.
    pub fn new() -> (r: MemoryStore)
        ensures
            r@ == Map::<u128, (ResourceV, Option<u64>)>::empty(),
    {
        let r = MemoryStore { entries: HashMap::new() };
        proof {
            assert(r@ =~= Map::<u128, (ResourceV, Option<u64>)>::empty());
        }
        r
    }

    /// Whether a resource is held under `key`.
    pub fn has(&self, key: u128) -> (r: bool)
        ensures
            r == self@.contains_key(key),
    {
        self.entries.contains_key(&key)
    }

    /// The resource held under `key`, if any.
    pub fn get(&self, key: u128) -> (r: Option<&Resource>)
        ensures
            match r {
                Some(v) => self@.contains_key(key) && self@[key].0 == v@,
                None => !self@.contains_key(key),
            },
    {
        match self.entries.get(&key) {
            Some(p) => Some(&p.0),
            None => None,
        }
    }

    /// Write `value` under `key` with the given time-to-live, replacing any
    /// resource already there: one write per call, whole-value replacement.
    pub fn set(&mut self, key: u128, value: Resource, ttl: Option<u64>)
        ensures
            final(self)@ == old(self)@.insert(key, (value@, ttl)),
    {
        let ghost vv = value@;
        let ghost before = self@;
        self.entries.insert(key, (value, ttl));
        proof {
            assert(self@ =~= before.insert(key, (vv, ttl)));
        }
    }

    /// Remove the resource under `key`, reporting how many entries were
    /// removed: one if the key was held, none otherwise.
    pub fn delete(&mut self, key: u128) -> (r: usize)
        ensures
            final(self)@ == old(self)@.remove(key),
            r == delete_count(old(self)@, key),
    {
        let ghost before = self@;
        let r: usize = match self.entries.remove(&key) {
            Some(_) => 1,
            None => 0,
        };
        proof {
            assert(self@ =~= before.remove(key));
        }
        r
    }
}

/// Deleting an id that no entry holds removes nothing, reports "not found",
/// and leaves the store as it was; a second delete of the same id therefore
/// reports the same outcome: delete is idempotent on missing ids.
pub proof fn lemma_delete_idempotent(m: Map<u128, (ResourceV, Option<u64>)>, id: u128)
    requires
        !m.contains_key(id),
    ensures
        delete_count(m, id) == 0,
        m.remove(id) =~= m,
        delete_count(m.remove(id), id) == 0,
{
}

/// Two deletes of one existing id, serialized in either order by the store's
/// exclusive-access lock: exactly the first observes a removal, the second
/// finds nothing — no removal is counted twice.
pub proof fn lemma_delete_exactly_once(m: Map<u128, (ResourceV, Option<u64>)>, id: u128)
    requires
        m.contains_key(id),
    ensures
        delete_count(m, id) == 1,
        delete_count(m.remove(id), id) == 0,
{
}

/// Outcome of an existence probe over the transport: the key exists when the
/// probe succeeded and counted at least one key; any transport error degrades
/// to "absent" — a deliberate availability-over-consistency choice.
pub fn exists_outcome(probe: Result<u64, ()>) -> (r: bool)
    ensures
        r == (probe matches Ok(n) && n > 0),
{
    match probe {
        Ok(n) => n > 0,
        Err(_) => false,
    }
}

/// Outcome of a read over the transport: the value on success, nothing on a
/// miss or on any transport error.
pub fn get_outcome(read: Result<Option<String>, ()>) -> (r: Option<String>)
    ensures
        match read {
            Ok(v) => r == v,
            Err(_) => r is None,
        },
{
    match read {
        Ok(v) => v,
        Err(_) => None,
    }
}

/// Outcome of a write over the transport: success passes through; any
/// transport failure is reported once as an internal error, never retried.
pub fn set_outcome(write: Result<(), ()>) -> (r: Result<(), Exception>)
    ensures
        r is Ok <==> write is Ok,
        r matches Err(e) ==> e matches Exception::InternalError,
{
    match write {
        Ok(_) => Ok(()),
        Err(_) => Err(Exception::InternalError),
    }
}

/// Outcome of a removal over the transport: the number of removed entries on
/// success; a transport failure is fatal to the request and reported as an
/// internal error.
pub fn delete_outcome(removal: Result<u64, ()>) -> (r: Result<u64, Exception>)
    ensures
        match removal {
            Ok(n) => r matches Ok(got) && got == n,
            Err(_) => r matches Err(e) && e matches Exception::InternalError,
        },
{
    match removal {
        Ok(n) => Ok(n),
        Err(_) => Err(Exception::InternalError),
    }
}

/// Caching a resource and reading the same id back yields the resource that
/// was written, under structural equality: entries are immutable once cached
/// except by whole-value replacement, so the store round trip preserves the
/// value.
pub proof fn lemma_cache_roundtrip(
    m: Map<u128, (ResourceV, Option<u64>)>,
    id: u128,
    value: ResourceV,
    ttl: Option<u64>,
)
    ensures
        m.insert(id, (value, ttl)).contains_key(id),
        m.insert(id, (value, ttl))[id].0 == value,
        m.insert(id, (value, ttl))[id].1 == ttl,
{
}

} // verus!
