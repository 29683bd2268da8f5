//! The transient store as this library relies on it: texts under keys,
//! each with an optional time at which it expires. The store kept here
//! lives in memory; a deployment keeps the same entries in a store of
//! its own.

use crate::seqs::{fields_map, lemma_last_key, lemma_no_key};
use crate::text::{chars_of, has_prefix, same_text, starts_with_chars};
use vstd::prelude::*;

verus! {

/// What is stored under a key: a text, and the second at which it
/// expires, if it does.
pub struct Stored {
    pub value: Seq<char>,
    pub expires_at: Option<u128>,
}

/// An entry of the store.
pub struct StoreEntry {
    pub key: String,
    pub value: String,
    pub expires_at: Option<u128>,
}

/// Whether what is stored is still there at the second `now`.
pub open spec fn is_live(stored: Stored, now: u64) -> bool {
    match stored.expires_at {
        Some(at) => now < at,
        None => true,
    }
}

/// The text under `key` at the second `now`, if one is there.
pub open spec fn value_at(entries: Map<Seq<char>, Stored>, key: Seq<char>, now: u64) -> Option<
    Seq<char>,
> {
    if entries.dom().contains(key) && is_live(entries[key], now) {
        Some(entries[key].value)
    } else {
        None
    }
}

/// The seconds for which the entry under `key` stays, at the second
/// `now`: nothing where no entry is there or where it never expires.
pub open spec fn time_left(entries: Map<Seq<char>, Stored>, key: Seq<char>, now: u64) -> Option<
    u128,
> {
    if entries.dom().contains(key) && is_live(entries[key], now) {
        match entries[key].expires_at {
            Some(at) => Some((at - now) as u128),
            None => None,
        }
    } else {
        None
    }
}

/// The second at which an entry set at `now` for `ttl` seconds expires.
pub open spec fn expiry(now: u64, ttl: u64) -> u128 {
    (now + ttl) as u128
}

/// The entries as pairs of key and stored text, in order.
pub open spec fn listed_entries(entries: Seq<StoreEntry>) -> Seq<(Seq<char>, Stored)> {
    Seq::new(
        entries.len(),
        |i: int| (entries[i].key@, Stored { value: entries[i].value@, expires_at: entries[i].expires_at }),
    )
}

/// Whether no two entries have the same key.
pub open spec fn keys_distinct(pairs: Seq<(Seq<char>, Stored)>) -> bool {
    forall|i: int, j: int|
        0 <= i < j < pairs.len() ==> (#[trigger] pairs[i]).0 != (#[trigger] pairs[j]).0
}

/// Taking the one entry with a key out of the list takes the key out of
/// the map.
pub proof fn lemma_remove_entry(pairs: Seq<(Seq<char>, Stored)>, i: int)
    requires
        0 <= i < pairs.len(),
        keys_distinct(pairs),
    ensures
        fields_map(pairs.remove(i)) == fields_map(pairs).remove(pairs[i].0),
        keys_distinct(pairs.remove(i)),
    decreases pairs.len(),
{
    let key = pairs[i].0;
    let init = pairs.drop_last();
    let last = pairs.last();
    assert(keys_distinct(pairs.remove(i))) by {
        let after = pairs.remove(i);
        assert forall|a: int, b: int| 0 <= a < b < after.len() implies (#[trigger] after[a]).0 != (
        #[trigger] after[b]).0 by {
            let a0 = if a < i {
                a
            } else {
                a + 1
            };
            let b0 = if b < i {
                b
            } else {
                b + 1
            };
            assert(after[a] == pairs[a0]);
            assert(after[b] == pairs[b0]);
        }
    }
    if i == pairs.len() - 1 {
        assert(pairs.remove(i) =~= init);
        assert forall|k: int| 0 <= k < init.len() implies (#[trigger] init[k]).0 != key by {
            assert(init[k] == pairs[k]);
        }
        lemma_no_key(init, key);
        assert(fields_map(init) =~= fields_map(pairs).remove(key));
    } else {
        assert(keys_distinct(init)) by {
            assert forall|a: int, b: int| 0 <= a < b < init.len() implies (#[trigger] init[a]).0
                != (#[trigger] init[b]).0 by {
                assert(init[a] == pairs[a]);
                assert(init[b] == pairs[b]);
            }
        }
        assert(init[i] == pairs[i]);
        lemma_remove_entry(init, i);
        assert(pairs.remove(i) =~= init.remove(i).push(last));
        assert(init.remove(i).push(last).drop_last() =~= init.remove(i));
        assert(last.0 != key);
        assert(fields_map(pairs.remove(i)) =~= fields_map(pairs).remove(key));
    }
}

/// A transient store in memory.
pub struct MemoryStore {
    entries: Vec<StoreEntry>,
}

impl View for MemoryStore {
    type V = Map<Seq<char>, Stored>;

    closed spec fn view(&self) -> Map<Seq<char>, Stored> {
        fields_map(listed_entries(self.entries@))
    }
}

impl MemoryStore {
    /// Whether the store holds each key once.
    pub closed spec fn well_formed(self) -> bool {
        keys_distinct(listed_entries(self.entries@))
    }

    /// A store without entries.
    pub fn new() -> (out: MemoryStore)
        ensures
            out.well_formed(),
            out@ == Map::<Seq<char>, Stored>::empty(),
    {
        let out = MemoryStore { entries: Vec::new() };
        assert(listed_entries(out.entries@) =~= Seq::empty());
        out
    }

    /// The place of the entry with the key `key`, if there is one.
    fn find(&self, key: &str) -> (out: Option<usize>)
        requires
            self.well_formed(),
        ensures
            match out {
                Some(i) => i < self.entries.len() && self.entries@[i as int].key@ == key@
                    && self@.dom().contains(key@) && self@[key@] == listed_entries(
                    self.entries@,
                )[i as int].1,
                None => !self@.dom().contains(key@),
            },
    {
        let ghost pairs = listed_entries(self.entries@);
        let mut i: usize = 0;
        while i < self.entries.len()
            invariant
                i <= self.entries.len(),
                pairs == listed_entries(self.entries@),
                keys_distinct(pairs),
                forall|k: int| 0 <= k < i ==> (#[trigger] pairs[k]).0 != key@,
            decreases self.entries.len() - i,
        {
            if same_text(self.entries[i].key.as_str(), key) {
                proof {
                    assert(pairs[i as int].0 == key@);
                    assert forall|k: int| i < k < pairs.len() implies (#[trigger] pairs[k]).0
                        != key@ by {
                        assert(pairs[i as int].0 != pairs[k].0);
                    }
                    lemma_last_key(pairs, key@, i as int);
                }
                return Some(i);
            }
            i += 1;
        }
        proof {
            lemma_no_key(pairs, key@);
        }
        None
    }

    /// The text under `key` at the second `now`.
    pub fn get(&self, key: &str, now: u64) -> (out: Option<String>)
        requires
            self.well_formed(),
        ensures
            match out {
                Some(v) => value_at(self@, key@, now) == Some(v@),
                None => value_at(self@, key@, now) is None,
            },
    {
        match self.find(key) {
            Some(i) => {
                let live = match self.entries[i].expires_at {
                    Some(at) => (now as u128) < at,
                    None => true,
                };
                if live {
                    Some(self.entries[i].value.clone())
                } else {
                    None
                }
            },
            None => None,
        }
    }

    /// Whether a text is under `key` at the second `now`.
    pub fn contains(&self, key: &str, now: u64) -> (out: bool)
        requires
            self.well_formed(),
        ensures
            out == value_at(self@, key@, now).is_some(),
    {
        self.get(key, now).is_some()
    }

    /// The seconds for which the entry under `key` stays, at the second
    /// `now`.
    pub fn ttl(&self, key: &str, now: u64) -> (out: Option<u128>)
        requires
            self.well_formed(),
        ensures
            out == time_left(self@, key@, now),
    {
        match self.find(key) {
            Some(i) => match self.entries[i].expires_at {
                Some(at) => if (now as u128) < at {
                    Some(at - now as u128)
                } else {
                    None
                },
                None => None,
            },
            None => None,
        }
    }

    /// Puts an entry under `key`, in place of the one that is there.
    fn put(&mut self, key: &str, value: &str, expires_at: Option<u128>)
        requires
            old(self).well_formed(),
        ensures
            final(self).well_formed(),
            final(self)@ == old(self)@.insert(key@, Stored { value: value@, expires_at }),
    {
        let ghost before = listed_entries(self.entries@);
        let found = self.find(key);
        match found {
            Some(i) => {
                proof {
                    lemma_remove_entry(before, i as int);
                }
                self.entries.remove(i);
                assert(listed_entries(self.entries@) =~= before.remove(i as int));
            },
            None => {},
        }
        let ghost middle = listed_entries(self.entries@);
        assert(!fields_map(middle).dom().contains(key@));
        self.entries.push(StoreEntry { key: key.to_owned(), value: value.to_owned(), expires_at });
        proof {
            let after = listed_entries(self.entries@);
            let added = (key@, Stored { value: value@, expires_at });
            assert(after =~= middle.push(added));
            assert(after.drop_last() =~= middle);
            assert(fields_map(after) =~= old(self)@.insert(key@, added.1));
            assert forall|a: int, b: int| 0 <= a < b < after.len() implies (#[trigger] after[a]).0
                != (#[trigger] after[b]).0 by {
                if b == middle.len() {
                    assert(after[a] == middle[a]);
                    if middle[a].0 == key@ {
                        assert forall|k: int| a < k < middle.len() implies (#[trigger] middle[k]).0
                            != key@ by {
                            assert(middle[a].0 != middle[k].0);
                        }
                        lemma_last_key(middle, key@, a);
                    }
                } else {
                    assert(after[a] == middle[a]);
                    assert(after[b] == middle[b]);
                }
            }
        }
    }

    /// Sets the text under `key`, to stay until it is set again.
    pub fn set(&mut self, key: &str, value: &str)
        requires
            old(self).well_formed(),
        ensures
            final(self).well_formed(),
            final(self)@ == old(self)@.insert(key@, Stored { value: value@, expires_at: None }),
    {
        self.put(key, value, None);
    }

    /// Sets the text under `key` at the second `now`, to stay for `ttl`
    /// seconds.
    pub fn set_ex(&mut self, key: &str, value: &str, ttl: u64, now: u64)
        requires
            old(self).well_formed(),
        ensures
            final(self).well_formed(),
            final(self)@ == old(self)@.insert(
                key@,
                Stored { value: value@, expires_at: Some(expiry(now, ttl)) },
            ),
    {
        let at: u128 = now as u128 + ttl as u128;
        self.put(key, value, Some(at));
    }

    /// The texts that are, at the second `now`, under the keys that begin
    /// with `prefix`: one text for each such key, in no particular order.
    pub fn values_with_prefix(&self, prefix: &str, now: u64) -> (out: Vec<String>)
        requires
            self.well_formed(),
        ensures
            holds_values_under(self@, prefix@, now, out@),
            forall|k: int| 0 <= k < out.len() ==> under_prefix(self@, prefix@, now, #[trigger] out@[k]@),
            forall|key: Seq<char>|
                has_prefix(key, prefix@) && (#[trigger] value_at(self@, key, now)).is_some()
                    ==> holds_text(out@, value_at(self@, key, now)->0),
    {
        let wanted = chars_of(prefix);
        let ghost pairs = listed_entries(self.entries@);
        let ghost mut keys: Seq<Seq<char>> = Seq::empty();
        let mut out: Vec<String> = Vec::new();
        let mut i: usize = 0;
        while i < self.entries.len()
            invariant
                i <= self.entries.len(),
                wanted@ == prefix@,
                pairs == listed_entries(self.entries@),
                keys_distinct(pairs),
                self@ == fields_map(pairs),
                keys.len() == out.len(),
                keys.no_duplicates(),
                forall|k: int|
                    0 <= k < keys.len() ==> key_among(pairs, i as int, #[trigger] keys[k])
                        && has_prefix(keys[k], prefix@) && value_at(self@, keys[k], now) == Some(
                        out@[k]@,
                    ),
                forall|j: int|
                    0 <= j < i && has_prefix((#[trigger] pairs[j]).0, prefix@) && is_live(
                        pairs[j].1,
                        now,
                    ) ==> keys.contains(pairs[j].0),
                forall|k: int|
                    0 <= k < out.len() ==> under_prefix(self@, prefix@, now, #[trigger] out@[k]@),
                forall|j: int|
                    0 <= j < i && has_prefix((#[trigger] pairs[j]).0, prefix@) && is_live(
                        pairs[j].1,
                        now,
                    ) ==> holds_text(out@, pairs[j].1.value),
            decreases self.entries.len() - i,
        {
            let entry = &self.entries[i];
            let ghost before = out@;
            let ghost keys_before = keys;
            proof {
                assert(pairs[i as int].0 == entry.key@);
                assert forall|k: int| 0 <= k < keys.len() implies key_among(
                    pairs,
                    i + 1,
                    #[trigger] keys[k],
                ) && keys[k] != entry.key@ by {
                    assert(key_among(pairs, i as int, keys[k]));
                    let j = choose|j: int| 0 <= j < i && (#[trigger] pairs[j]).0 == keys[k];
                    assert(pairs[j].0 != pairs[i as int].0);
                }
                assert forall|k: int| i < k < pairs.len() implies (#[trigger] pairs[k]).0
                    != entry.key@ by {
                    assert(pairs[i as int].0 != pairs[k].0);
                }
                lemma_last_key(pairs, entry.key@, i as int);
            }
            let live = match entry.expires_at {
                Some(at) => (now as u128) < at,
                None => true,
            };
            let key_chars = chars_of(entry.key.as_str());
            if live && starts_with_chars(&key_chars, &wanted) {
                out.push(entry.value.clone());
                proof {
                    keys = keys.push(entry.key@);
                    assert(value_at(self@, entry.key@, now) == Some(entry.value@));
                    assert(key_among(pairs, i + 1, entry.key@));
                    assert forall|k: int| 0 <= k < keys.len() implies key_among(
                        pairs,
                        i + 1,
                        #[trigger] keys[k],
                    ) && has_prefix(keys[k], prefix@) && value_at(self@, keys[k], now) == Some(
                        out@[k]@,
                    ) by {
                        if k < keys_before.len() {
                            assert(keys[k] == keys_before[k]);
                            assert(out@[k] == before[k]);
                        }
                    }
                    assert forall|a: int, b: int|
                        0 <= a < keys.len() && 0 <= b < keys.len() && a != b implies keys[a]
                        != keys[b] by {
                        if a < keys_before.len() {
                            assert(keys[a] == keys_before[a]);
                        }
                        if b < keys_before.len() {
                            assert(keys[b] == keys_before[b]);
                        }
                    }
                    assert(keys[keys.len() - 1] == entry.key@);
                    assert(under_prefix(self@, prefix@, now, entry.value@));
                    assert forall|k: int| 0 <= k < out.len() implies under_prefix(
                        self@,
                        prefix@,
                        now,
                        #[trigger] out@[k]@,
                    ) by {
                        if k < before.len() {
                            assert(out@[k] == before[k]);
                        }
                    }
                }
            }
            proof {
                assert forall|j: int|
                    0 <= j < i + 1 && has_prefix((#[trigger] pairs[j]).0, prefix@) && is_live(
                        pairs[j].1,
                        now,
                    ) implies keys.contains(pairs[j].0) by {
                    if j < i {
                        assert(keys_before.contains(pairs[j].0));
                        let k = choose|k: int|
                            0 <= k < keys_before.len() && keys_before[k] == pairs[j].0;
                        assert(keys[k] == keys_before[k]);
                    } else {
                        assert(keys[keys.len() - 1] == pairs[j].0);
                    }
                }
                assert forall|j: int|
                    0 <= j < i + 1 && has_prefix((#[trigger] pairs[j]).0, prefix@) && is_live(
                        pairs[j].1,
                        now,
                    ) implies holds_text(out@, pairs[j].1.value) by {
                    if j < i {
                        assert(holds_text(before, pairs[j].1.value));
                        let k = choose|k: int|
                            0 <= k < before.len() && (#[trigger] before[k])@ == pairs[j].1.value;
                        assert(out@[k] == before[k]);
                    } else {
                        assert(out@[out.len() - 1]@ == pairs[j].1.value);
                    }
                }
            }
            i += 1;
        }
        proof {
            assert forall|key: Seq<char>|
                has_prefix(key, prefix@) && (#[trigger] value_at(
                    self@,
                    key,
                    now,
                )).is_some() implies holds_text(out@, value_at(self@, key, now)->0) by {
                lemma_key_has_entry(pairs, key);
                let j = choose|j: int| 0 <= j < pairs.len() && (#[trigger] pairs[j]).0 == key;
                assert forall|k: int| j < k < pairs.len() implies (#[trigger] pairs[k]).0 != key by {
                    assert(pairs[j].0 != pairs[k].0);
                }
                lemma_last_key(pairs, key, j);
            }
            assert forall|key: Seq<char>|
                has_prefix(key, prefix@) && (#[trigger] value_at(
                    self@,
                    key,
                    now,
                )).is_some() implies keys.contains(key) by {
                lemma_key_has_entry(pairs, key);
                let j = choose|j: int| 0 <= j < pairs.len() && (#[trigger] pairs[j]).0 == key;
                assert forall|k: int| j < k < pairs.len() implies (#[trigger] pairs[k]).0 != key by {
                    assert(pairs[j].0 != pairs[k].0);
                }
                lemma_last_key(pairs, key, j);
            }
            assert(lists_values_under(self@, prefix@, now, keys, out@));
        }
        out
    }
}

/// Whether one of the first `n` entries has the key `key`.
pub open spec fn key_among(pairs: Seq<(Seq<char>, Stored)>, n: int, key: Seq<char>) -> bool {
    exists|j: int| 0 <= j < n && (#[trigger] pairs[j]).0 == key
}

/// Whether `keys` are the keys that begin with `prefix` and have a text
/// at the second `now`, each of them once, and `texts` are their texts,
/// key by key.
pub open spec fn lists_values_under(
    entries: Map<Seq<char>, Stored>,
    prefix: Seq<char>,
    now: u64,
    keys: Seq<Seq<char>>,
    texts: Seq<String>,
) -> bool {
    &&& keys.len() == texts.len()
    &&& keys.no_duplicates()
    &&& forall|k: int|
        0 <= k < keys.len() ==> has_prefix(#[trigger] keys[k], prefix) && value_at(
            entries,
            keys[k],
            now,
        ) == Some(texts[k]@)
    &&& forall|key: Seq<char>|
        has_prefix(key, prefix) && (#[trigger] value_at(entries, key, now)).is_some()
            ==> keys.contains(key)
}

/// Whether `texts` are the texts that are, at the second `now`, under
/// the keys that begin with `prefix`: one text for each such key, no
/// more and no fewer, in some order.
pub open spec fn holds_values_under(
    entries: Map<Seq<char>, Stored>,
    prefix: Seq<char>,
    now: u64,
    texts: Seq<String>,
) -> bool {
    exists|keys: Seq<Seq<char>>| lists_values_under(entries, prefix, now, keys, texts)
}

/// Whether `text` is, at the second `now`, under a key that begins with
/// `prefix`.
pub open spec fn under_prefix(
    entries: Map<Seq<char>, Stored>,
    prefix: Seq<char>,
    now: u64,
    text: Seq<char>,
) -> bool {
    exists|key: Seq<char>|
        has_prefix(key, prefix) && #[trigger] value_at(entries, key, now) == Some(text)
}

/// Whether one of `texts` is `text`.
pub open spec fn holds_text(texts: Seq<String>, text: Seq<char>) -> bool {
    exists|k: int| 0 <= k < texts.len() && (#[trigger] texts[k])@ == text
}

/// A key of the map is the key of one of the entries.
pub proof fn lemma_key_has_entry(pairs: Seq<(Seq<char>, Stored)>, key: Seq<char>)
    requires
        fields_map(pairs).dom().contains(key),
    ensures
        exists|j: int| 0 <= j < pairs.len() && (#[trigger] pairs[j]).0 == key,
{
    if forall|j: int| 0 <= j < pairs.len() ==> (#[trigger] pairs[j]).0 != key {
        lemma_no_key(pairs, key);
    }
}

} // verus!
