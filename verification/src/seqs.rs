//! Searching sequences.

use vstd::prelude::*;

verus! {

/// The index of the first item of `s` that meets `wanted`, or the length
/// of `s` where none does.
pub open spec fn first_index<A>(s: Seq<A>, wanted: spec_fn(A) -> bool) -> int
    decreases s.len(),
{
    if s.len() == 0 {
        0
    } else if wanted(s[0]) {
        0
    } else {
        1 + first_index(s.drop_first(), wanted)
    }
}

/// `first_index` is `i` where `i` is the length or the item at `i` meets
/// the test, and no earlier item does.
pub proof fn lemma_first_index_is<A>(s: Seq<A>, wanted: spec_fn(A) -> bool, i: int)
    requires
        0 <= i <= s.len(),
        forall|k: int| 0 <= k < i ==> !wanted(#[trigger] s[k]),
        i == s.len() || wanted(s[i]),
    ensures
        first_index(s, wanted) == i,
    decreases i,
{
    if i > 0 {
        let rest = s.drop_first();
        assert(!wanted(s[0]));
        assert forall|k: int| 0 <= k < i - 1 implies !wanted(#[trigger] rest[k]) by {
            assert(rest[k] == s[k + 1]);
        }
        lemma_first_index_is(rest, wanted, i - 1);
    }
}

/// `first_index` lies within `0 ..= len`; below `len` the item there
/// meets the test; no earlier item does.
pub proof fn lemma_first_index<A>(s: Seq<A>, wanted: spec_fn(A) -> bool)
    ensures
        0 <= first_index(s, wanted) <= s.len(),
        first_index(s, wanted) < s.len() ==> wanted(s[first_index(s, wanted)]),
        forall|k: int| 0 <= k < first_index(s, wanted) ==> !wanted(#[trigger] s[k]),
    decreases s.len(),
{
    if s.len() > 0 && !wanted(s[0]) {
        let rest = s.drop_first();
        lemma_first_index(rest, wanted);
        assert forall|k: int| 0 <= k < first_index(s, wanted) implies !wanted(#[trigger] s[k]) by {
            if k > 0 {
                assert(rest[k - 1] == s[k]);
            }
        }
    }
}

/// The map that a list of fields stands for: later fields override
/// earlier ones with the same key.
pub open spec fn fields_map<V>(fields: Seq<(Seq<char>, V)>) -> Map<Seq<char>, V>
    decreases fields.len(),
{
    if fields.len() == 0 {
        Map::empty()
    } else {
        fields_map(fields.drop_last()).insert(fields.last().0, fields.last().1)
    }
}

/// A key that the field at `i` has, and no later field, maps to the value
/// of that field.
pub proof fn lemma_last_key<V>(fields: Seq<(Seq<char>, V)>, key: Seq<char>, i: int)
    requires
        0 <= i < fields.len(),
        fields[i].0 == key,
        forall|k: int| i < k < fields.len() ==> (#[trigger] fields[k]).0 != key,
    ensures
        fields_map(fields).dom().contains(key),
        fields_map(fields)[key] == fields[i].1,
    decreases fields.len(),
{
    if i < fields.len() - 1 {
        let init = fields.drop_last();
        assert(fields[fields.len() - 1].0 != key);
        assert forall|k: int| i < k < init.len() implies (#[trigger] init[k]).0 != key by {
            assert(init[k] == fields[k]);
        }
        lemma_last_key(init, key, i);
    }
}

/// A key that no field has is not in the map.
pub proof fn lemma_no_key<V>(fields: Seq<(Seq<char>, V)>, key: Seq<char>)
    requires
        forall|k: int| 0 <= k < fields.len() ==> (#[trigger] fields[k]).0 != key,
    ensures
        !fields_map(fields).dom().contains(key),
    decreases fields.len(),
{
    if fields.len() > 0 {
        let init = fields.drop_last();
        assert(fields[fields.len() - 1].0 != key);
        assert forall|k: int| 0 <= k < init.len() implies (#[trigger] init[k]).0 != key by {
            assert(init[k] == fields[k]);
        }
        lemma_no_key(init, key);
    }
}

/// The test that a field has a key other than `key`.
pub open spec fn has_other_key<V>(key: Seq<char>) -> spec_fn((Seq<char>, V)) -> bool {
    |f: (Seq<char>, V)| f.0 != key
}

/// Dropping the fields with a key from the list takes that key, and no
/// other, out of the map.
pub proof fn lemma_fields_map_without<V>(fields: Seq<(Seq<char>, V)>, key: Seq<char>)
    ensures
        fields_map(fields.filter(has_other_key::<V>(key))) == fields_map(fields).remove(key),
    decreases fields.len(),
{
    let keep = has_other_key::<V>(key);
    if fields.len() == 0 {
        assert(fields.filter(keep) =~= Seq::empty());
        assert(fields_map(fields.filter(keep)) =~= fields_map(fields).remove(key));
    } else {
        let init = fields.drop_last();
        let last = fields.last();
        lemma_fields_map_without(init, key);
        assert(fields =~= init.push(last));
        lemma_filter_push(init, last, keep);
        if keep(last) {
            assert(init.filter(keep).push(last).drop_last() =~= init.filter(keep));
            assert(fields_map(fields.filter(keep)) =~= fields_map(fields).remove(key));
        } else {
            assert(fields_map(fields.filter(keep)) =~= fields_map(fields).remove(key));
        }
    }
}

/// Filtering a sequence with one more item at its end keeps that item at
/// the end where it passes, and changes nothing where it does not.
pub proof fn lemma_filter_push<A>(s: Seq<A>, last: A, keep: spec_fn(A) -> bool)
    ensures
        s.push(last).filter(keep) == if keep(last) {
            s.filter(keep).push(last)
        } else {
            s.filter(keep)
        },
{
    reveal(Seq::filter);
    assert(s.push(last).drop_last() =~= s);
}

} // verus!
