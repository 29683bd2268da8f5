//! The text from which the embedding of a profile or of a job is made.

use crate::config::{AppConfig, MatchMode, MetaDataMatch};
use crate::json::{lemma_array_view, values_of, Json, JsonValue};
use crate::text::{chars_of, push_chars, push_text, string_of, trim_chars, trim_text};
use vstd::prelude::*;

verus! {

/// `text`, `n` times.
pub open spec fn repeated(text: Seq<char>, n: nat) -> Seq<Seq<char>> {
    Seq::new(n, |i: int| text)
}

/// The texts in `parts`, in order.
pub open spec fn part_texts(parts: Seq<String>) -> Seq<Seq<char>> {
    Seq::new(parts.len(), |i: int| parts[i]@)
}

/// Pushes `text` onto `parts`, `weight` times.
pub fn weighted_push(parts: &mut Vec<String>, text: &str, weight: usize)
    ensures
        part_texts(final(parts)@) == part_texts(old(parts)@) + repeated(text@, weight as nat),
{
    let ghost before = part_texts(parts@);
    let mut i: usize = 0;
    assert(part_texts(parts@) =~= before + repeated(text@, 0));
    while i < weight
        invariant
            i <= weight,
            part_texts(parts@) == before + repeated(text@, i as nat),
        decreases weight - i,
    {
        let ghost now = part_texts(parts@);
        parts.push(text.to_owned());
        assert(part_texts(parts@) =~= now.push(text@));
        assert(now.push(text@) =~= before + repeated(text@, (i + 1) as nat));
        i += 1;
    }
}

/// What the strings among `items` contribute, each `weight` times.
pub open spec fn array_parts(items: Seq<JsonValue>, weight: nat) -> Seq<Seq<char>>
    decreases items.len(),
{
    if items.len() == 0 {
        Seq::empty()
    } else {
        array_parts(items.drop_last(), weight) + match items.last() {
            JsonValue::Str(s) => repeated(s, weight),
            _ => Seq::empty(),
        }
    }
}

/// What the value found for a rule contributes: a string itself, or of
/// an array rule each string in the array, `weight` times each.
pub open spec fn value_parts(value: Option<JsonValue>, is_array: bool, weight: nat) -> Seq<
    Seq<char>,
> {
    match value {
        None => Seq::empty(),
        Some(v) => if is_array {
            match v {
                JsonValue::Array(items) => array_parts(items, weight),
                _ => Seq::empty(),
            }
        } else {
            match v {
                JsonValue::Str(s) => repeated(s, weight),
                _ => Seq::empty(),
            }
        },
    }
}

/// The weight of a rule: one where none is given.
pub open spec fn rule_weight(rule: MetaDataMatch) -> nat {
    match rule.weight {
        Some(w) => w as nat,
        None => 1,
    }
}

/// The path at which a rule finds its value, on the job's side or on the
/// profile's.
pub open spec fn rule_path(rule: MetaDataMatch, job_side: bool) -> Seq<char> {
    if job_side {
        rule.job_path@
    } else {
        rule.profile_path@
    }
}

/// What one rule contributes to the embedding text of `doc`: nothing
/// unless it compares by meaning.
pub open spec fn rule_parts(doc: JsonValue, rule: MetaDataMatch, job_side: bool) -> Seq<Seq<char>> {
    if rule.match_mode == MatchMode::Embed {
        value_parts(doc.pointer(rule_path(rule, job_side)), rule.is_array, rule_weight(rule))
    } else {
        Seq::empty()
    }
}

/// What the rules contribute to the embedding text of `doc`, in the
/// order of the rules.
pub open spec fn all_parts(doc: JsonValue, rules: Seq<MetaDataMatch>, job_side: bool) -> Seq<
    Seq<char>,
>
    decreases rules.len(),
{
    if rules.len() == 0 {
        Seq::empty()
    } else {
        all_parts(doc, rules.drop_last(), job_side) + rule_parts(doc, rules.last(), job_side)
    }
}

/// The texts in `parts` with one space between neighbours.
pub open spec fn joined(parts: Seq<Seq<char>>) -> Seq<char>
    decreases parts.len(),
{
    if parts.len() == 0 {
        Seq::empty()
    } else if parts.len() == 1 {
        parts[0]
    } else {
        joined(parts.drop_last()) + seq![' '] + parts.last()
    }
}

/// The embedding text of `doc` under `rules`.
pub open spec fn embedding_text(doc: JsonValue, rules: Seq<MetaDataMatch>, job_side: bool) -> Seq<
    char,
> {
    joined(all_parts(doc, rules, job_side))
}

/// The texts in `parts` with one space between neighbours.
pub fn join_parts(parts: &Vec<String>) -> (out: String)
    ensures
        out@ == joined(part_texts(parts@)),
{
    let mut all: Vec<char> = Vec::new();
    let mut i: usize = 0;
    assert(part_texts(parts@).take(0) =~= Seq::empty());
    while i < parts.len()
        invariant
            i <= parts.len(),
            all@ == joined(part_texts(parts@).take(i as int)),
        decreases parts.len() - i,
    {
        let ghost texts = part_texts(parts@);
        assert(texts.take(i + 1).drop_last() =~= texts.take(i as int));
        assert(texts.take(i + 1).last() == parts@[i as int]@);
        if i > 0 {
            all.push(' ');
        }
        push_text(&mut all, parts[i].as_str());
        assert(all@ =~= joined(texts.take(i + 1)));
        i += 1;
    }
    assert(part_texts(parts@).take(parts.len() as int) =~= part_texts(parts@));
    string_of(&all)
}

/// Pushes what the value found for a rule contributes.
fn push_value_parts(parts: &mut Vec<String>, value: Option<&Json>, is_array: bool, weight: usize)
    ensures
        part_texts(final(parts)@) == part_texts(old(parts)@) + value_parts(
            match value {
                Some(v) => Some(v@),
                None => None,
            },
            is_array,
            weight as nat,
        ),
{
    let ghost before = part_texts(parts@);
    match value {
        None => {
            assert(before + Seq::<Seq<char>>::empty() =~= before);
        },
        Some(v) => {
            if is_array {
                match v.as_array() {
                    Some(items) => {
                        let mut i: usize = 0;
                        let ghost all = values_of(items@);
                        assert(all.take(0) =~= Seq::empty());
                        assert(before + array_parts(all.take(0), weight as nat) =~= before);
                        while i < items.len()
                            invariant
                                i <= items.len(),
                                all == values_of(items@),
                                part_texts(parts@) == before + array_parts(
                                    all.take(i as int),
                                    weight as nat,
                                ),
                            decreases items.len() - i,
                        {
                            assert(all.take(i + 1).drop_last() =~= all.take(i as int));
                            assert(all.take(i + 1).last() == items@[i as int]@);
                            let ghost now = part_texts(parts@);
                            match items[i].as_str() {
                                Some(s) => {
                                    weighted_push(parts, s, weight);
                                },
                                None => {
                                    assert(now + Seq::<Seq<char>>::empty() =~= now);
                                },
                            }
                            assert(part_texts(parts@) =~= before + array_parts(
                                all.take(i + 1),
                                weight as nat,
                            ));
                            i += 1;
                        }
                        assert(all.take(items.len() as int) =~= all);
                    },
                    None => {
                        assert(before + Seq::<Seq<char>>::empty() =~= before);
                    },
                }
            } else {
                match v.as_str() {
                    Some(s) => {
                        weighted_push(parts, s, weight);
                    },
                    None => {
                        assert(before + Seq::<Seq<char>>::empty() =~= before);
                    },
                }
            }
        },
    }
}

/// The embedding text of `doc` under `rules`, from the job's paths or
/// from the profile's.
pub fn text_for_embedding(doc: &Json, rules: &Vec<MetaDataMatch>, job_side: bool) -> (out: String)
    ensures
        out@ == embedding_text(doc@, rules@, job_side),
{
    let mut parts: Vec<String> = Vec::new();
    let mut i: usize = 0;
    assert(rules@.take(0) =~= Seq::empty());
    assert(part_texts(parts@) =~= all_parts(doc@, rules@.take(0), job_side));
    while i < rules.len()
        invariant
            i <= rules.len(),
            part_texts(parts@) == all_parts(doc@, rules@.take(i as int), job_side),
        decreases rules.len() - i,
    {
        let rule = &rules[i];
        assert(rules@.take(i + 1).drop_last() =~= rules@.take(i as int));
        assert(rules@.take(i + 1).last() == *rule);
        let ghost now = part_texts(parts@);
        match rule.match_mode {
            MatchMode::Embed => {
                let weight: usize = match rule.weight {
                    Some(w) => w,
                    None => 1,
                };
                let value = if job_side {
                    doc.pointer(rule.job_path.as_str())
                } else {
                    doc.pointer(rule.profile_path.as_str())
                };
                push_value_parts(&mut parts, value, rule.is_array, weight);
            },
            MatchMode::Manual => {
                assert(now + Seq::<Seq<char>>::empty() =~= now);
            },
        }
        i += 1;
    }
    assert(rules@.take(rules.len() as int) =~= rules@);
    join_parts(&parts)
}

/// The embedding text of the profile `profile` under the configured rules.
pub fn profile_text_for_embedding(profile: &Json, config: &AppConfig) -> (out: String)
    ensures
        out@ == embedding_text(profile@, config.metadata_match@, false),
{
    text_for_embedding(profile, &config.metadata_match, false)
}

/// The embedding text of the job `job` under the configured rules.
pub fn job_text_for_embedding(job: &Json, config: &AppConfig) -> (out: String)
    ensures
        out@ == embedding_text(job@, config.metadata_match@, true),
{
    text_for_embedding(job, &config.metadata_match, true)
}

/// Whether a text is worth embedding: it holds more than white space.
pub open spec fn has_content(text: Seq<char>) -> bool {
    trim_text(text).len() > 0
}

/// Whether `text` is worth embedding. An empty or blank text has the
/// empty embedding, and none is requested for it.
pub fn needs_embedding(text: &str) -> (out: bool)
    ensures
        out == has_content(text@),
{
    let chars = chars_of(text);
    let trimmed = trim_chars(&chars);
    trimmed.len() > 0
}

/// What to do for the embedding of a text.
pub enum EmbeddingPlan {
    /// Nothing is requested: the text holds no more than white space,
    /// and its embedding is the empty vector.
    Empty,
    /// The cache holds the embedding, as this text.
    Cached(String),
    /// The embedding is to be requested, and then cached under this key.
    Request { key: String },
}

/// What to do for the embedding of a text, as a mathematical value.
pub enum EmbeddingPlanView {
    Empty,
    Cached(Seq<char>),
    Request { key: Seq<char> },
}

impl View for EmbeddingPlan {
    type V = EmbeddingPlanView;

    open spec fn view(&self) -> EmbeddingPlanView {
        match self {
            EmbeddingPlan::Empty => EmbeddingPlanView::Empty,
            EmbeddingPlan::Cached(v) => EmbeddingPlanView::Cached(v@),
            EmbeddingPlan::Request { key } => EmbeddingPlanView::Request { key: key@ },
        }
    }
}

/// What to do for the embedding of `text` under the model `model`, given
/// the cache: nothing for a blank text; what the cache holds under the
/// key of the text; a request where it holds nothing.
pub open spec fn embedding_plan(
    entries: Map<Seq<char>, crate::store::Stored>,
    model: Seq<char>,
    text: Seq<char>,
    now: u64,
) -> EmbeddingPlanView {
    if !has_content(text) {
        EmbeddingPlanView::Empty
    } else {
        match crate::store::value_at(entries, crate::hash::embedding_key(model, text), now) {
            Some(v) => EmbeddingPlanView::Cached(v),
            None => EmbeddingPlanView::Request { key: crate::hash::embedding_key(model, text) },
        }
    }
}

/// What to do for the embedding of `text`, against the cache in memory.
pub fn plan_embedding(cache: &crate::store::MemoryStore, model: &str, text: &str, now: u64) -> (out:
    EmbeddingPlan)
    requires
        cache.well_formed(),
    ensures
        out@ == embedding_plan(cache@, model@, text@, now),
{
    if !needs_embedding(text) {
        return EmbeddingPlan::Empty;
    }
    let key = crate::hash::embedding_cache_key(model, text);
    match cache.get(key.as_str(), now) {
        Some(v) => EmbeddingPlan::Cached(v),
        None => EmbeddingPlan::Request { key },
    }
}

/// Caches the embedding `vector` of a text under `key`, to stay until it
/// is set again.
pub fn cache_embedding(cache: &mut crate::store::MemoryStore, key: &str, vector: &str)
    requires
        old(cache).well_formed(),
    ensures
        final(cache).well_formed(),
        final(cache)@ == old(cache)@.insert(
            key@,
            crate::store::Stored { value: vector@, expires_at: None },
        ),
{
    cache.set(key, vector);
}

/// Embedding cache: once the embedding of a text is cached, every later
/// call for the same text under the same model gets the cached vector;
/// and a blank text never leads to a request.
pub proof fn lemma_embedding_cache(
    entries: Map<Seq<char>, crate::store::Stored>,
    model: Seq<char>,
    text: Seq<char>,
    vector: Seq<char>,
    later: u64,
)
    ensures
        has_content(text) ==> embedding_plan(
            entries.insert(
                crate::hash::embedding_key(model, text),
                crate::store::Stored { value: vector, expires_at: None },
            ),
            model,
            text,
            later,
        ) == EmbeddingPlanView::Cached(vector),
        !has_content(text) ==> embedding_plan(entries, model, text, later)
            == EmbeddingPlanView::Empty,
{
}

} // verus!
