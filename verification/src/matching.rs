//! Free-text matching and the filters of a catalogue query.

use crate::codec::{json_text, render};
use crate::json::{Json, JsonValue};
use crate::text::{
    chars_of, contains_chars, has_substring, lowercase_chars, lowercase_text, split_chars,
    split_text, string_of, texts_of, trim_chars, trim_text,
};
use vstd::prelude::*;

verus! {

/// A piece of a comma-separated list as a token: trimmed, in lowercase.
pub open spec fn token_of(piece: Seq<char>) -> Seq<char> {
    lowercase_text(trim_text(piece))
}

/// The tokens of a comma-separated list, one for each piece, empty ones
/// included.
pub open spec fn tokens_of(list: Seq<char>) -> Seq<Seq<char>> {
    let pieces = split_text(list, ',');
    Seq::new(pieces.len(), |i: int| token_of(pieces[i]))
}

/// The tokens of the comma-separated list `list`.
pub fn list_tokens(list: &str) -> (out: Vec<Vec<char>>)
    ensures
        texts_of(out@) == tokens_of(list@),
{
    let chars = chars_of(list);
    let pieces = split_chars(&chars, ',');
    let mut out: Vec<Vec<char>> = Vec::new();
    let mut i: usize = 0;
    while i < pieces.len()
        invariant
            i <= pieces.len(),
            texts_of(pieces@) == split_text(list@, ','),
            out.len() == i,
            forall|k: int| 0 <= k < i ==> out@[k]@ == token_of(pieces@[k]@),
        decreases pieces.len() - i,
    {
        let trimmed = trim_chars(&pieces[i]);
        let as_text = string_of(&trimmed);
        out.push(lowercase_chars(as_text.as_str()));
        i += 1;
    }
    proof {
        assert forall|k: int| 0 <= k < out.len() implies texts_of(out@)[k] == tokens_of(list@)[k] by {
            assert(texts_of(pieces@)[k] == pieces@[k]@);
        }
        assert(texts_of(out@) =~= tokens_of(list@));
    }
    out
}

/// Whether the value is a string whose lowercase form holds `token`.
pub open spec fn text_hits(value: Option<JsonValue>, token: Seq<char>) -> bool {
    match value {
        Some(JsonValue::Str(s)) => has_substring(lowercase_text(s), token),
        _ => false,
    }
}

/// Whether the value is there and the lowercase form of its JSON text
/// holds `token`.
pub open spec fn rendered_hits(value: Option<JsonValue>, token: Seq<char>) -> bool {
    match value {
        Some(v) => has_substring(lowercase_text(json_text(v)), token),
        None => false,
    }
}

/// Whether an item of the provider named `provider_name` matches one
/// token: the token occurs in the provider's name, in the item's name,
/// industry, role, job title or provider name, or in the JSON text of its
/// locations or of its provider's location.
pub open spec fn item_matches_token(
    provider_name: Seq<char>,
    item: JsonValue,
    token: Seq<char>,
) -> bool {
    ||| has_substring(lowercase_text(provider_name), token)
    ||| text_hits(item.pointer("/descriptor/name"@), token)
    ||| rendered_hits(item.field("locations"@), token)
    ||| text_hits(item.pointer("/tags/industry"@), token)
    ||| text_hits(item.pointer("/tags/role"@), token)
    ||| text_hits(item.pointer("/tags/jobDetails/title"@), token)
    ||| rendered_hits(item.pointer("/tags/jobProviderLocation"@), token)
    ||| text_hits(item.pointer("/tags/basicInfo/jobProviderName"@), token)
}

/// Whether an item matches a free-text query: one of the query's
/// comma-separated tokens, empty ones left aside, matches it.
pub open spec fn matches_query(provider_name: Seq<char>, item: JsonValue, query: Seq<char>) -> bool {
    exists|i: int|
        0 <= i < tokens_of(query).len() && (#[trigger] tokens_of(query)[i]).len() > 0
            && item_matches_token(provider_name, item, tokens_of(query)[i])
}

/// Whether `value` is a string whose lowercase form holds `token`.
pub fn text_value_hits(value: Option<&Json>, token: &Vec<char>) -> (out: bool)
    ensures
        out == text_hits(
            match value {
                Some(v) => Some(v@),
                None => None,
            },
            token@,
        ),
{
    match value {
        Some(v) => match v.as_str() {
            Some(s) => {
                let lowered = lowercase_chars(s);
                contains_chars(&lowered, token)
            },
            None => false,
        },
        None => false,
    }
}

/// Whether `value` is there and the lowercase form of its JSON text
/// holds `token`.
pub fn rendered_value_hits(value: Option<&Json>, token: &Vec<char>) -> (out: bool)
    ensures
        out == rendered_hits(
            match value {
                Some(v) => Some(v@),
                None => None,
            },
            token@,
        ),
{
    match value {
        Some(v) => {
            let text = render(v);
            let lowered = lowercase_chars(text.as_str());
            contains_chars(&lowered, token)
        },
        None => false,
    }
}

/// Whether `item` of the provider named `provider_name` matches `token`.
pub fn matches_token(provider_name: &str, item: &Json, token: &Vec<char>) -> (out: bool)
    ensures
        out == item_matches_token(provider_name@, item@, token@),
{
    let name = lowercase_chars(provider_name);
    contains_chars(&name, token) || text_value_hits(item.pointer("/descriptor/name"), token)
        || rendered_value_hits(item.get("locations"), token) || text_value_hits(
        item.pointer("/tags/industry"),
        token,
    ) || text_value_hits(item.pointer("/tags/role"), token) || text_value_hits(
        item.pointer("/tags/jobDetails/title"),
        token,
    ) || rendered_value_hits(item.pointer("/tags/jobProviderLocation"), token) || text_value_hits(
        item.pointer("/tags/basicInfo/jobProviderName"),
        token,
    )
}

/// Whether `item` of the provider named `provider_name` matches the
/// free-text query `qf`.
pub fn matches_query_dynamic(provider_name: &str, item: &Json, qf: &str) -> (out: bool)
    ensures
        out == matches_query(provider_name@, item@, qf@),
{
    let tokens = list_tokens(qf);
    let mut i: usize = 0;
    while i < tokens.len()
        invariant
            i <= tokens.len(),
            texts_of(tokens@) == tokens_of(qf@),
            forall|k: int|
                0 <= k < i ==> !((#[trigger] tokens_of(qf@)[k]).len() > 0 && item_matches_token(
                    provider_name@,
                    item@,
                    tokens_of(qf@)[k],
                )),
        decreases tokens.len() - i,
    {
        assert(texts_of(tokens@)[i as int] == tokens@[i as int]@);
        if tokens[i].len() > 0 && matches_token(provider_name, item, &tokens[i]) {
            return true;
        }
        i += 1;
    }
    false
}

/// Whether one of `tokens` occurs in `text`.
pub open spec fn any_within(tokens: Seq<Seq<char>>, text: Seq<char>) -> bool {
    exists|i: int| 0 <= i < tokens.len() && has_substring(text, #[trigger] tokens[i])
}

/// Whether one of `tokens` occurs in `text`.
pub fn any_token_within(tokens: &Vec<Vec<char>>, text: &Vec<char>) -> (out: bool)
    ensures
        out == any_within(texts_of(tokens@), text@),
{
    let mut i: usize = 0;
    while i < tokens.len()
        invariant
            i <= tokens.len(),
            forall|k: int| 0 <= k < i ==> !has_substring(text@, #[trigger] texts_of(tokens@)[k]),
        decreases tokens.len() - i,
    {
        assert(texts_of(tokens@)[i as int] == tokens@[i as int]@);
        if contains_chars(text, &tokens[i]) {
            return true;
        }
        i += 1;
    }
    false
}

/// Whether one of `tokens` occurs in one of `texts`.
pub open spec fn any_within_any(tokens: Seq<Seq<char>>, texts: Seq<Seq<char>>) -> bool {
    exists|j: int| 0 <= j < texts.len() && any_within(tokens, #[trigger] texts[j])
}

/// Whether one of `tokens` occurs in one of `texts`.
pub fn any_token_within_any(tokens: &Vec<Vec<char>>, texts: &Vec<Vec<char>>) -> (out: bool)
    ensures
        out == any_within_any(texts_of(tokens@), texts_of(texts@)),
{
    let mut j: usize = 0;
    while j < texts.len()
        invariant
            j <= texts.len(),
            forall|k: int|
                0 <= k < j ==> !any_within(texts_of(tokens@), #[trigger] texts_of(texts@)[k]),
        decreases texts.len() - j,
    {
        assert(texts_of(texts@)[j as int] == texts@[j as int]@);
        if any_token_within(tokens, &texts[j]) {
            return true;
        }
        j += 1;
    }
    false
}

/// The text of a string value, or the empty text.
pub open spec fn text_or_empty(value: Option<JsonValue>) -> Seq<char> {
    match value {
        Some(JsonValue::Str(s)) => s,
        _ => Seq::empty(),
    }
}

/// The name of a provider or of an item: its `descriptor.name`, or the
/// empty text where it has none.
pub open spec fn descriptor_name(doc: JsonValue) -> Seq<char> {
    text_or_empty(doc.pointer("/descriptor/name"@))
}

/// The name of the provider or item `doc`.
pub fn name_of(doc: &Json) -> (out: String)
    ensures
        out@ == descriptor_name(doc@),
{
    match doc.pointer("/descriptor/name") {
        Some(v) => match v.as_str() {
            Some(s) => s.to_owned(),
            None => String::new(),
        },
        None => String::new(),
    }
}

/// The pieces of a comma-separated text, each trimmed.
pub open spec fn trimmed_pieces(text: Seq<char>) -> Seq<Seq<char>> {
    let pieces = split_text(text, ',');
    Seq::new(pieces.len(), |i: int| trim_text(pieces[i]))
}

/// The pieces of the comma-separated text `text`, each trimmed.
pub fn split_trimmed(text: &Vec<char>) -> (out: Vec<Vec<char>>)
    ensures
        texts_of(out@) == trimmed_pieces(text@),
{
    let pieces = split_chars(text, ',');
    let mut out: Vec<Vec<char>> = Vec::new();
    let mut i: usize = 0;
    while i < pieces.len()
        invariant
            i <= pieces.len(),
            texts_of(pieces@) == split_text(text@, ','),
            out.len() == i,
            forall|k: int| 0 <= k < i ==> out@[k]@ == trim_text(pieces@[k]@),
        decreases pieces.len() - i,
    {
        out.push(trim_chars(&pieces[i]));
        i += 1;
    }
    proof {
        assert forall|k: int| 0 <= k < out.len() implies texts_of(out@)[k] == trimmed_pieces(
            text@,
        )[k] by {
            assert(texts_of(pieces@)[k] == pieces@[k]@);
        }
        assert(texts_of(out@) =~= trimmed_pieces(text@));
    }
    out
}

/// The filters of a catalogue query, as tokens in lowercase. A list that
/// is not given filters nothing.
pub struct Filters {
    pub provider: Option<Vec<char>>,
    pub roles: Vec<Vec<char>>,
    pub primaries: Vec<Vec<char>>,
    pub excludes: Vec<Vec<char>>,
    pub query: Option<String>,
}

/// The filters of a catalogue query, as mathematical values.
pub struct FiltersView {
    pub provider: Option<Seq<char>>,
    pub roles: Seq<Seq<char>>,
    pub primaries: Seq<Seq<char>>,
    pub excludes: Seq<Seq<char>>,
    pub query: Option<Seq<char>>,
}

impl View for Filters {
    type V = FiltersView;

    open spec fn view(&self) -> FiltersView {
        FiltersView {
            provider: match self.provider {
                Some(p) => Some(p@),
                None => None,
            },
            roles: texts_of(self.roles@),
            primaries: texts_of(self.primaries@),
            excludes: texts_of(self.excludes@),
            query: match self.query {
                Some(q) => Some(q@),
                None => None,
            },
        }
    }
}

/// The tokens of an optional list: none where the list is not given.
pub open spec fn optional_tokens(list: Option<Seq<char>>) -> Seq<Seq<char>> {
    match list {
        Some(l) => tokens_of(l),
        None => Seq::empty(),
    }
}

/// The filters that a query states: the provider and the free text in
/// lowercase, the three lists as tokens.
pub open spec fn filters_of(
    provider: Option<Seq<char>>,
    role: Option<Seq<char>>,
    query: Option<Seq<char>>,
    primary: Option<Seq<char>>,
    exclude: Option<Seq<char>>,
) -> FiltersView {
    FiltersView {
        provider: match provider {
            Some(p) => Some(lowercase_text(p)),
            None => None,
        },
        roles: optional_tokens(role),
        primaries: optional_tokens(primary),
        excludes: optional_tokens(exclude),
        query: match query {
            Some(q) => Some(lowercase_text(q)),
            None => None,
        },
    }
}

/// The text of an optional text.
pub open spec fn optional_text(text: Option<&str>) -> Option<Seq<char>> {
    match text {
        Some(t) => Some(t@),
        None => None,
    }
}

/// The tokens of the optional list `list`.
pub fn optional_list_tokens(list: Option<&str>) -> (out: Vec<Vec<char>>)
    ensures
        texts_of(out@) == optional_tokens(optional_text(list)),
{
    match list {
        Some(l) => list_tokens(l),
        None => {
            let out: Vec<Vec<char>> = Vec::new();
            assert(texts_of(out@) =~= Seq::empty());
            out
        },
    }
}

/// The filters that a query states.
pub fn prepare_filters(
    provider: Option<&str>,
    role: Option<&str>,
    query: Option<&str>,
    primary: Option<&str>,
    exclude: Option<&str>,
) -> (out: Filters)
    ensures
        out@ == filters_of(
            optional_text(provider),
            optional_text(role),
            optional_text(query),
            optional_text(primary),
            optional_text(exclude),
        ),
{
    Filters {
        provider: match provider {
            Some(p) => Some(lowercase_chars(p)),
            None => None,
        },
        roles: optional_list_tokens(role),
        primaries: optional_list_tokens(primary),
        excludes: optional_list_tokens(exclude),
        query: match query {
            Some(q) => Some(crate::text::lowercase(q)),
            None => None,
        },
    }
}

/// Whether a provider named `provider_name` passes the provider filter:
/// its name in lowercase holds the filter.
pub open spec fn provider_passes(filters: FiltersView, provider_name: Seq<char>) -> bool {
    match filters.provider {
        Some(p) => has_substring(lowercase_text(provider_name), p),
        None => true,
    }
}

/// Whether the role or the industry of an item holds one of `tokens`.
pub open spec fn role_or_industry_holds(item: JsonValue, tokens: Seq<Seq<char>>) -> bool {
    exists|i: int|
        0 <= i < tokens.len() && (text_hits(item.pointer("/tags/role"@), #[trigger] tokens[i])
            || text_hits(item.pointer("/tags/industry"@), tokens[i]))
}

/// Whether an item passes the filters, within a provider that passed:
/// - with primary filters, the item's name in lowercase holds one;
/// - with role filters, one of the comma-separated roles in that name
///   holds one;
/// - with a free-text query, the item matches it;
/// - no exclude token occurs in the item's role or industry.
pub open spec fn item_passes(filters: FiltersView, provider_name: Seq<char>, item: JsonValue) -> bool {
    let role_name = lowercase_text(descriptor_name(item));
    &&& filters.primaries.len() == 0 || any_within(filters.primaries, role_name)
    &&& filters.roles.len() == 0 || any_within_any(filters.roles, trimmed_pieces(role_name))
    &&& match filters.query {
        Some(q) => matches_query(lowercase_text(provider_name), item, q),
        None => true,
    }
    &&& !role_or_industry_holds(item, filters.excludes)
}

/// Whether the role or the industry of `item` holds one of `tokens`.
pub fn holds_role_or_industry(item: &Json, tokens: &Vec<Vec<char>>) -> (out: bool)
    ensures
        out == role_or_industry_holds(item@, texts_of(tokens@)),
{
    let mut i: usize = 0;
    while i < tokens.len()
        invariant
            i <= tokens.len(),
            forall|k: int|
                0 <= k < i ==> !(text_hits(
                    item@.pointer("/tags/role"@),
                    #[trigger] texts_of(tokens@)[k],
                ) || text_hits(item@.pointer("/tags/industry"@), texts_of(tokens@)[k])),
        decreases tokens.len() - i,
    {
        assert(texts_of(tokens@)[i as int] == tokens@[i as int]@);
        if text_value_hits(item.pointer("/tags/role"), &tokens[i]) || text_value_hits(
            item.pointer("/tags/industry"),
            &tokens[i],
        ) {
            return true;
        }
        i += 1;
    }
    false
}

/// Whether the provider named `provider_name` passes the provider filter.
pub fn passes_provider(filters: &Filters, provider_name: &str) -> (out: bool)
    ensures
        out == provider_passes(filters@, provider_name@),
{
    match &filters.provider {
        Some(p) => {
            let name = lowercase_chars(provider_name);
            contains_chars(&name, p)
        },
        None => true,
    }
}

/// Whether `item` passes the filters, within the provider named
/// `provider_name`.
pub fn passes_item(filters: &Filters, provider_name: &str, item: &Json) -> (out: bool)
    ensures
        out == item_passes(filters@, provider_name@, item@),
{
    let name = name_of(item);
    let role_name = lowercase_chars(name.as_str());
    if filters.primaries.len() > 0 && !any_token_within(&filters.primaries, &role_name) {
        return false;
    }
    if filters.roles.len() > 0 {
        let roles = split_trimmed(&role_name);
        if !any_token_within_any(&filters.roles, &roles) {
            return false;
        }
    }
    match &filters.query {
        Some(q) => {
            let lowered_name = crate::text::lowercase(provider_name);
            if !matches_query_dynamic(lowered_name.as_str(), item, q.as_str()) {
                return false;
            }
        },
        None => {},
    }
    !holds_role_or_industry(item, &filters.excludes)
}

} // verus!
