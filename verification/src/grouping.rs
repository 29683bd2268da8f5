//! Grouping listed items by the context they came with and by their
//! provider, in the order of first appearance.

use crate::json::{values_of, Json, JsonValue};
use crate::seqs::{first_index, lemma_first_index_is};
use vstd::prelude::*;

verus! {

#[verifier::external_type_specification]
#[verifier::external_body]
#[verifier::reject_recursive_types(K)]
#[verifier::reject_recursive_types(V)]
#[verifier::reject_recursive_types(S)]
pub struct ExIndexMap<K, V, S>(indexmap::IndexMap<K, V, S>);

/// The keys that an ordered map holds, in the order of their insertion.
pub uninterp spec fn index_keys(
    map: indexmap::IndexMap<String, (), std::collections::hash_map::RandomState>,
) -> Seq<Seq<char>>;

/// No keys.
pub open spec fn no_keys() -> Seq<Seq<char>> {
    Seq::empty()
}

/// The keys after `key` was inserted: as before where the key was there,
/// with the key at the end where it was not.
pub open spec fn keys_with(keys: Seq<Seq<char>>, key: Seq<char>) -> Seq<Seq<char>> {
    if keys.contains(key) {
        keys
    } else {
        keys.push(key)
    }
}

/// Whether `i` is the one place at which `keys` holds `key`.
pub open spec fn only_place(keys: Seq<Seq<char>>, key: Seq<char>, i: int) -> bool {
    &&& 0 <= i < keys.len()
    &&& keys[i] == key
    &&& forall|j: int| 0 <= j < keys.len() && keys[j] == key ==> j == i
}

/// `IndexMap::new`: a map without keys.
#[verifier::external_body]
fn keyset_new() -> (out: indexmap::IndexMap<String, (), std::collections::hash_map::RandomState>)
    ensures
        index_keys(out) == no_keys(),
{
    indexmap::IndexMap::new()
}

/// `IndexMap::get_index_of`: the place of `key` in the order of
/// insertion, the only place with that key; nothing where the map does
/// not hold the key.
#[verifier::external_body]
fn keyset_position(
    map: &indexmap::IndexMap<String, (), std::collections::hash_map::RandomState>,
    key: &str,
) -> (out: Option<usize>)
    ensures
        match out {
            Some(i) => only_place(index_keys(*map), key@, i as int),
            None => !index_keys(*map).contains(key@),
        },
{
    map.get_index_of(key)
}

/// `IndexMap::insert`: a key that the map does not hold goes last in the
/// order; one that it holds stays in its place.
#[verifier::external_body]
fn keyset_insert(
    map: &mut indexmap::IndexMap<String, (), std::collections::hash_map::RandomState>,
    key: String,
)
    ensures
        index_keys(*final(map)) == keys_with(index_keys(*old(map)), key@),
{
    map.insert(key, ());
}

/// The items listed under one provider.
pub struct ProviderGroup {
    pub key: String,
    pub head: Json,
    pub items: Vec<Json>,
}

/// The items listed under one provider, as mathematical values.
pub struct ProviderGroupView {
    pub key: Seq<char>,
    pub head: JsonValue,
    pub items: Seq<JsonValue>,
}

impl View for ProviderGroup {
    type V = ProviderGroupView;

    open spec fn view(&self) -> ProviderGroupView {
        ProviderGroupView { key: self.key@, head: self.head@, items: values_of(self.items@) }
    }
}

/// The provider groups in `groups`, in order.
pub open spec fn provider_groups_of(groups: Seq<ProviderGroup>) -> Seq<ProviderGroupView> {
    Seq::new(groups.len(), |i: int| groups[i]@)
}

/// The providers listed under one context.
pub struct ContextGroup {
    key: String,
    context: Json,
    providers: Vec<ProviderGroup>,
    lookup: indexmap::IndexMap<String, (), std::collections::hash_map::RandomState>,
}

/// The providers listed under one context, as mathematical values.
pub struct ContextGroupView {
    pub key: Seq<char>,
    pub context: JsonValue,
    pub providers: Seq<ProviderGroupView>,
}

impl View for ContextGroup {
    type V = ContextGroupView;

    closed spec fn view(&self) -> ContextGroupView {
        ContextGroupView {
            key: self.key@,
            context: self.context@,
            providers: provider_groups_of(self.providers@),
        }
    }
}

/// The keys of the provider groups, in order.
pub open spec fn provider_keys(groups: Seq<ProviderGroupView>) -> Seq<Seq<char>> {
    Seq::new(groups.len(), |i: int| groups[i].key)
}

/// The keys of the context groups, in order.
pub open spec fn context_keys(groups: Seq<ContextGroupView>) -> Seq<Seq<char>> {
    Seq::new(groups.len(), |i: int| groups[i].key)
}

impl ContextGroup {
    /// Whether the group's lookup holds the keys of its providers, in
    /// their order.
    pub closed spec fn well_formed(self) -> bool {
        index_keys(self.lookup) == provider_keys(self@.providers)
    }

    /// The context that the providers are listed under.
    pub fn context(&self) -> (out: &Json)
        ensures
            out@ == self@.context,
    {
        &self.context
    }

    /// The providers listed under the context.
    pub fn providers(&self) -> (out: &Vec<ProviderGroup>)
        ensures
            provider_groups_of(out@) == self@.providers,
    {
        &self.providers
    }
}

/// The context groups in `groups`, in order.
pub open spec fn context_groups_of(groups: Seq<ContextGroup>) -> Seq<ContextGroupView> {
    Seq::new(groups.len(), |i: int| groups[i]@)
}

/// An item to list, with the context it came with and the head of its
/// provider, each with the key that it is grouped by.
pub struct Listed {
    pub context_key: String,
    pub context: Json,
    pub provider_key: String,
    pub head: Json,
    pub item: Json,
}

/// An item to list, as a mathematical value.
pub struct ListedView {
    pub context_key: Seq<char>,
    pub context: JsonValue,
    pub provider_key: Seq<char>,
    pub head: JsonValue,
    pub item: JsonValue,
}

impl View for Listed {
    type V = ListedView;

    open spec fn view(&self) -> ListedView {
        ListedView {
            context_key: self.context_key@,
            context: self.context@,
            provider_key: self.provider_key@,
            head: self.head@,
            item: self.item@,
        }
    }
}

/// The test that a provider group has the key `key`.
pub open spec fn provider_is(key: Seq<char>) -> spec_fn(ProviderGroupView) -> bool {
    |g: ProviderGroupView| g.key == key
}

/// The test that a context group has the key `key`.
pub open spec fn context_is(key: Seq<char>) -> spec_fn(ContextGroupView) -> bool {
    |g: ContextGroupView| g.key == key
}

/// The provider group that an item opens.
pub open spec fn new_provider_group(e: ListedView) -> ProviderGroupView {
    ProviderGroupView { key: e.provider_key, head: e.head, items: seq![e.item] }
}

/// The providers of a context with one more item listed: under the
/// first provider group with its provider's key, or under a new group at
/// the end.
pub open spec fn add_to_providers(groups: Seq<ProviderGroupView>, e: ListedView) -> Seq<
    ProviderGroupView,
> {
    let j = first_index(groups, provider_is(e.provider_key));
    if 0 <= j < groups.len() {
        groups.update(
            j,
            ProviderGroupView {
                key: groups[j].key,
                head: groups[j].head,
                items: groups[j].items.push(e.item),
            },
        )
    } else {
        groups.push(new_provider_group(e))
    }
}

/// The context groups with one more item listed: under the first group
/// with its context's key, or under a new group at the end.
pub open spec fn add_listed(groups: Seq<ContextGroupView>, e: ListedView) -> Seq<ContextGroupView> {
    let i = first_index(groups, context_is(e.context_key));
    if 0 <= i < groups.len() {
        groups.update(
            i,
            ContextGroupView {
                key: groups[i].key,
                context: groups[i].context,
                providers: add_to_providers(groups[i].providers, e),
            },
        )
    } else {
        groups.push(
            ContextGroupView {
                key: e.context_key,
                context: e.context,
                providers: seq![new_provider_group(e)],
            },
        )
    }
}

/// The place of the first of `keys` that is `key`, where the lookup
/// holds these keys.
fn find_key(
    lookup: &indexmap::IndexMap<String, (), std::collections::hash_map::RandomState>,
    key: &str,
) -> (out: Option<usize>)
    ensures
        match out {
            Some(i) => i < index_keys(*lookup).len() && index_keys(*lookup)[i as int] == key@
                && forall|j: int| 0 <= j < i ==> index_keys(*lookup)[j] != key@,
            None => forall|j: int|
                0 <= j < index_keys(*lookup).len() ==> index_keys(*lookup)[j] != key@,
        },
{
    keyset_position(lookup, key)
}

/// Lists one more item under the providers of a context.
fn add_provider_item(group: ContextGroup, e_provider_key: String, head: Json, item: Json) -> (out:
    ContextGroup)
    requires
        group.well_formed(),
    ensures
        out.well_formed(),
        out@.key == group@.key,
        out@.context == group@.context,
        out@.providers == add_to_providers(
            group@.providers,
            ListedView {
                context_key: group@.key,
                context: group@.context,
                provider_key: e_provider_key@,
                head: head@,
                item: item@,
            },
        ),
{
    let mut group = group;
    let ghost before = group@.providers;
    let ghost wanted = provider_is(e_provider_key@);
    match find_key(&group.lookup, e_provider_key.as_str()) {
        Some(j) => {
            proof {
                assert forall|k: int| 0 <= k < j implies !wanted(#[trigger] before[k]) by {
                    assert(provider_keys(before)[k] == before[k].key);
                }
                assert(provider_keys(before)[j as int] == before[j as int].key);
                lemma_first_index_is(before, wanted, j as int);
            }
            let mut provider = group.providers.remove(j);
            let ghost old_items = values_of(provider.items@);
            provider.items.push(item);
            assert(values_of(provider.items@) =~= old_items.push(item@));
            group.providers.insert(j, provider);
            proof {
                let after = group@.providers;
                assert(after =~= before.update(
                    j as int,
                    ProviderGroupView {
                        key: before[j as int].key,
                        head: before[j as int].head,
                        items: before[j as int].items.push(item@),
                    },
                ));
                assert(provider_keys(after) =~= provider_keys(before));
            }
            group
        },
        None => {
            proof {
                assert forall|k: int| 0 <= k < before.len() implies !wanted(#[trigger] before[k]) by {
                    assert(provider_keys(before)[k] == before[k].key);
                }
                lemma_first_index_is(before, wanted, before.len() as int);
                assert(!index_keys(group.lookup).contains(e_provider_key@));
            }
            keyset_insert(&mut group.lookup, e_provider_key.clone());
            let mut items: Vec<Json> = Vec::new();
            items.push(item);
            assert(values_of(items@) =~= seq![item@]);
            group.providers.push(ProviderGroup { key: e_provider_key, head, items });
            proof {
                let after = group@.providers;
                assert(after =~= before.push(
                    ProviderGroupView { key: e_provider_key@, head: head@, items: seq![item@] },
                ));
                assert(provider_keys(after) =~= provider_keys(before).push(e_provider_key@));
            }
            group
        },
    }
}

/// Items grouped by context and provider, in the order of first
/// appearance.
pub struct Grouping {
    groups: Vec<ContextGroup>,
    lookup: indexmap::IndexMap<String, (), std::collections::hash_map::RandomState>,
}

impl View for Grouping {
    type V = Seq<ContextGroupView>;

    closed spec fn view(&self) -> Seq<ContextGroupView> {
        context_groups_of(self.groups@)
    }
}

impl Grouping {
    /// Whether the lookups hold the keys of the groups, in their order.
    pub closed spec fn well_formed(self) -> bool {
        &&& index_keys(self.lookup) == context_keys(self@)
        &&& forall|i: int| 0 <= i < self.groups@.len() ==> (#[trigger] self.groups@[i]).well_formed()
    }

    /// A grouping without items.
    pub fn new() -> (out: Grouping)
        ensures
            out.well_formed(),
            out@ == Seq::<ContextGroupView>::empty(),
    {
        let out = Grouping { groups: Vec::new(), lookup: keyset_new() };
        assert(out@ =~= Seq::<ContextGroupView>::empty());
        assert(context_keys(out@) =~= no_keys());
        out
    }

    /// Lists one more item.
    pub fn add(&mut self, e: Listed)
        requires
            old(self).well_formed(),
        ensures
            final(self).well_formed(),
            final(self)@ == add_listed(old(self)@, e@),
    {
        let ghost before = self@;
        let ghost wanted = context_is(e.context_key@);
        let Listed { context_key, context, provider_key, head, item } = e;
        match find_key(&self.lookup, context_key.as_str()) {
            Some(i) => {
                proof {
                    assert forall|k: int| 0 <= k < i implies !wanted(#[trigger] before[k]) by {
                        assert(context_keys(before)[k] == before[k].key);
                    }
                    assert(context_keys(before)[i as int] == before[i as int].key);
                    lemma_first_index_is(before, wanted, i as int);
                }
                let ghost old_groups = self.groups@;
                let group = self.groups.remove(i);
                assert(group == old_groups[i as int]);
                let group = add_provider_item(group, provider_key, head, item);
                self.groups.insert(i, group);
                proof {
                    assert(self.groups@ =~= old_groups.update(i as int, group));
                    assert(self@ =~= add_listed(before, e@));
                    assert(context_keys(self@) =~= context_keys(before));
                    assert forall|k: int| 0 <= k < self.groups@.len() implies (
                    #[trigger] self.groups@[k]).well_formed() by {
                        if k != i {
                            assert(self.groups@[k] == old_groups[k]);
                        }
                    }
                }
            },
            None => {
                proof {
                    assert forall|k: int| 0 <= k < before.len() implies !wanted(
                        #[trigger] before[k],
                    ) by {
                        assert(context_keys(before)[k] == before[k].key);
                    }
                    lemma_first_index_is(before, wanted, before.len() as int);
                    assert(!index_keys(self.lookup).contains(context_key@));
                }
                keyset_insert(&mut self.lookup, context_key.clone());
                let mut inner = keyset_new();
                keyset_insert(&mut inner, provider_key.clone());
                let mut items: Vec<Json> = Vec::new();
                items.push(item);
                assert(values_of(items@) =~= seq![item@]);
                let mut providers: Vec<ProviderGroup> = Vec::new();
                providers.push(ProviderGroup { key: provider_key, head, items });
                let ghost old_groups = self.groups@;
                let group = ContextGroup { key: context_key, context, providers, lookup: inner };
                proof {
                    assert(group@.providers =~= seq![new_provider_group(e@)]);
                    assert(provider_keys(group@.providers) =~= no_keys().push(provider_key@));
                    assert(!no_keys().contains(provider_key@));
                    assert(group.well_formed());
                }
                self.groups.push(group);
                proof {
                    assert(self@ =~= add_listed(before, e@));
                    assert(context_keys(self@) =~= context_keys(before).push(context_key@));
                    assert forall|k: int| 0 <= k < self.groups@.len() implies (
                    #[trigger] self.groups@[k]).well_formed() by {
                        if k < old_groups.len() {
                            assert(self.groups@[k] == old_groups[k]);
                        }
                    }
                }
            },
        }
    }

    /// The groups, in the order of first appearance.
    pub fn into_groups(self) -> (out: Vec<ContextGroup>)
        ensures
            context_groups_of(out@) == self@,
    {
        self.groups
    }
}

} // verus!
