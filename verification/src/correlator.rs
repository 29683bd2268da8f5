//! The registry of pending calls: which waiter a callback belongs to.

use vstd::prelude::*;
use vstd::string::StringExecFns;

verus! {

#[verifier::external_type_specification]
#[verifier::external_body]
#[verifier::reject_recursive_types(K)]
#[verifier::reject_recursive_types(V)]
#[verifier::reject_recursive_types(S)]
pub struct ExDashMap<K, V, S>(dashmap::DashMap<K, V, S>);

/// The entries that a map of pending calls holds: waiter by key.
pub uninterp spec fn pending_entries(
    map: dashmap::DashMap<String, u64, std::collections::hash_map::RandomState>,
) -> Map<Seq<char>, u64>;

/// `DashMap::new`: a map without entries.
#[verifier::external_body]
fn registry_new() -> (out: dashmap::DashMap<String, u64, std::collections::hash_map::RandomState>)
    ensures
        pending_entries(out) == no_entries(),
{
    dashmap::DashMap::new()
}

/// `DashMap::insert`: sets the entry of `key` to `waiter` and returns the
/// waiter that the key had, if it had one.
#[verifier::external_body]
fn registry_insert(
    map: &mut dashmap::DashMap<String, u64, std::collections::hash_map::RandomState>,
    key: String,
    waiter: u64,
) -> (out: Option<u64>)
    ensures
        pending_entries(*final(map)) == pending_entries(*old(map)).insert(key@, waiter),
        out == lookup(pending_entries(*old(map)), key@),
    no_unwind
{
    map.insert(key, waiter)
}

/// `DashMap::remove`: takes the entry of `key` out and returns its
/// waiter, if the key had one.
#[verifier::external_body]
fn registry_remove(
    map: &mut dashmap::DashMap<String, u64, std::collections::hash_map::RandomState>,
    key: &str,
) -> (out: Option<u64>)
    ensures
        pending_entries(*final(map)) == pending_entries(*old(map)).remove(key@),
        out == lookup(pending_entries(*old(map)), key@),
    no_unwind
{
    map.remove(key).map(|entry| entry.1)
}

/// `DashMap::contains_key`: whether `key` has an entry.
#[verifier::external_body]
fn registry_contains(
    map: &dashmap::DashMap<String, u64, std::collections::hash_map::RandomState>,
    key: &str,
) -> (out: bool)
    ensures
        out == pending_entries(*map).dom().contains(key@),
{
    map.contains_key(key)
}

/// The map without entries.
pub open spec fn no_entries() -> Map<Seq<char>, u64> {
    Map::empty()
}

/// The waiter of `key` in `entries`, if it has one.
pub open spec fn lookup(entries: Map<Seq<char>, u64>, key: Seq<char>) -> Option<u64> {
    if entries.dom().contains(key) {
        Some(entries[key])
    } else {
        None
    }
}

/// The key of a pending call: transaction and message identifier with a
/// colon between them.
pub open spec fn pending_key(txn_id: Seq<char>, message_id: Seq<char>) -> Seq<char> {
    txn_id + ":"@ + message_id
}

/// Why a call could not be registered.
#[derive(Debug, Clone, Copy, PartialEq, Eq, Structural)]
pub enum CorrelatorError {
    /// A call with this transaction and message is pending already.
    AlreadyPending,
    /// No waiter is left to hand out.
    Exhausted,
}

/// The pending calls of this process. A waiter is a number that stands
/// for the single-shot channel on which a caller waits.
pub struct Correlator {
    pending: dashmap::DashMap<String, u64, std::collections::hash_map::RandomState>,
    next: u64,
}

impl Correlator {
    #[verifier::type_invariant]
    spec fn well_formed(self) -> bool {
        forall|key: Seq<char>| #[trigger]
            pending_entries(self.pending).dom().contains(key) ==> pending_entries(
                self.pending,
            )[key] < self.next
    }

    /// The pending calls: waiter by key.
    pub closed spec fn entries(self) -> Map<Seq<char>, u64> {
        pending_entries(self.pending)
    }

    /// The waiter that the next registered call gets.
    pub closed spec fn next_waiter(self) -> u64 {
        self.next
    }

    /// A registry without pending calls.
    pub fn new() -> (out: Correlator)
        ensures
            out.entries() == no_entries(),
            out.next_waiter() == 0,
    {
        Correlator { pending: registry_new(), next: 0 }
    }

    /// The key of the call with the given identifiers.
    pub fn key_of(txn_id: &str, message_id: &str) -> (out: String)
        ensures
            out@ == pending_key(txn_id@, message_id@),
    {
        let mut key = String::new();
        key.append(txn_id);
        key.append(":");
        key.append(message_id);
        assert(key@ =~= pending_key(txn_id@, message_id@));
        key
    }

    /// Whether a call with the given identifiers is pending.
    pub fn is_pending(&self, txn_id: &str, message_id: &str) -> (out: bool)
        ensures
            out == self.entries().dom().contains(pending_key(txn_id@, message_id@)),
    {
        let key = Correlator::key_of(txn_id, message_id);
        registry_contains(&self.pending, key.as_str())
    }

    /// Registers a call and hands out its waiter, one that no pending
    /// call has. Fails, and changes nothing, where a call with these
    /// identifiers is pending, or where no waiter is left.
    pub fn begin(&mut self, txn_id: &str, message_id: &str) -> (out: Result<u64, CorrelatorError>)
        ensures
            match out {
                Ok(waiter) => {
                    &&& !old(self).entries().dom().contains(pending_key(txn_id@, message_id@))
                    &&& old(self).next_waiter() < u64::MAX
                    &&& waiter == old(self).next_waiter()
                    &&& final(self).next_waiter() == waiter + 1
                    &&& final(self).entries() == old(self).entries().insert(
                        pending_key(txn_id@, message_id@),
                        waiter,
                    )
                },
                Err(CorrelatorError::AlreadyPending) => {
                    &&& old(self).entries().dom().contains(pending_key(txn_id@, message_id@))
                    &&& final(self).entries() == old(self).entries()
                    &&& final(self).next_waiter() == old(self).next_waiter()
                },
                Err(CorrelatorError::Exhausted) => {
                    &&& !old(self).entries().dom().contains(pending_key(txn_id@, message_id@))
                    &&& old(self).next_waiter() == u64::MAX
                    &&& final(self).entries() == old(self).entries()
                    &&& final(self).next_waiter() == old(self).next_waiter()
                },
            },
    {
        proof {
            use_type_invariant(&*self);
        }
        let key = Correlator::key_of(txn_id, message_id);
        if registry_contains(&self.pending, key.as_str()) {
            return Err(CorrelatorError::AlreadyPending);
        }
        if self.next == u64::MAX {
            return Err(CorrelatorError::Exhausted);
        }
        let waiter: u64 = self.next;
        self.next = waiter + 1;
        registry_insert(&mut self.pending, key, waiter);
        Ok(waiter)
    }

    /// Takes the call with the given identifiers out of the registry and
    /// returns its waiter, to be resolved with the callback. Where no
    /// such call is pending, returns nothing and changes nothing.
    pub fn deliver(&mut self, txn_id: &str, message_id: &str) -> (out: Option<u64>)
        ensures
            out == lookup(old(self).entries(), pending_key(txn_id@, message_id@)),
            final(self).entries() == old(self).entries().remove(pending_key(txn_id@, message_id@)),
            final(self).next_waiter() == old(self).next_waiter(),
    {
        proof {
            use_type_invariant(&*self);
        }
        let key = Correlator::key_of(txn_id, message_id);
        registry_remove(&mut self.pending, key.as_str())
    }

    /// Gives up the call with the given identifiers after its wait ran
    /// out: removes it where it is still pending, and tells whether it
    /// was.
    pub fn expire(&mut self, txn_id: &str, message_id: &str) -> (out: bool)
        ensures
            out == old(self).entries().dom().contains(pending_key(txn_id@, message_id@)),
            final(self).entries() == old(self).entries().remove(pending_key(txn_id@, message_id@)),
            final(self).next_waiter() == old(self).next_waiter(),
    {
        self.deliver(txn_id, message_id).is_some()
    }
}

/// A call leaves the registry once, by its delivery or by its timeout:
/// whatever comes later under the same identifiers, a late callback or a
/// second delivery or timeout, finds no waiter, changes nothing, and
/// leaves every other pending call as it is.
pub proof fn lemma_late_callback_is_dropped(entries: Map<Seq<char>, u64>, key: Seq<char>)
    ensures
        lookup(entries.remove(key), key) is None,
        entries.remove(key).remove(key) == entries.remove(key),
        forall|other: Seq<char>|
            other != key ==> lookup(entries.remove(key), other) == lookup(entries, other),
{
    assert(entries.remove(key).remove(key) =~= entries.remove(key));
}

} // verus!
