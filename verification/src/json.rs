//! JSON documents as plain data: lookup by key, index and pointer, field
//! updates, comparison, and text form.

use crate::codec::is_real_text;
use crate::seqs::{
    fields_map, has_other_key, lemma_fields_map_without, lemma_filter_push, lemma_last_key,
    lemma_no_key,
};
use crate::text::{
    all_digits, chars_of, digits_value, is_digit, lemma_digits_monotone, lemma_split_nonempty,
    split_chars, split_text, string_of, texts_of,
};
use vstd::prelude::*;

verus! {

/// The mathematical value of a JSON document. An object is a map from
/// keys to values; an array is a sequence.
pub enum JsonValue {
    Null,
    Bool(bool),
    /// A whole number.
    Int(int),
    /// A floating-point number, by its bit pattern.
    Real(int),
    Str(Seq<char>),
    Array(Seq<JsonValue>),
    Object(Map<Seq<char>, JsonValue>),
}

/// The floating-point number that a JSON number text denotes, as
/// `serde_json` reads it, by its bit pattern; nothing where the text is no
/// JSON number, or denotes a whole number.
pub uninterp spec fn real_number(text: Seq<char>) -> Option<int>;

/// A floating-point number, held as a decimal text of it.
#[derive(Debug, PartialEq)]
pub struct Decimal {
    text: String,
}

impl Decimal {
    #[verifier::type_invariant]
    spec fn well_formed(self) -> bool {
        real_number(self.text@) is Some
    }

    /// The number, by its bit pattern.
    pub closed spec fn number(self) -> int {
        real_number(self.text@)->0
    }

    /// The text that the number is held as.
    pub closed spec fn source(self) -> Seq<char> {
        self.text@
    }

    /// The number that `text` denotes, where it denotes a floating-point
    /// number.
    pub fn parse(text: &str) -> (out: Option<Decimal>)
        ensures
            match out {
                Some(d) => d.source() == text@ && real_number(text@) == Some(d.number()),
                None => real_number(text@) is None,
            },
    {
        if is_real_text(text) {
            Some(Decimal { text: text.to_owned() })
        } else {
            None
        }
    }

    /// The text that the number is held as.
    pub fn text(&self) -> (out: &str)
        ensures
            out@ == self.source(),
            real_number(out@) == Some(self.number()),
    {
        proof {
            use_type_invariant(self);
        }
        self.text.as_str()
    }

    /// A copy of this number.
    pub fn duplicate(&self) -> (out: Decimal)
        ensures
            out.source() == self.source(),
            out.number() == self.number(),
    {
        proof {
            use_type_invariant(self);
        }
        Decimal { text: self.text.clone() }
    }
}

impl Clone for Decimal {
    fn clone(&self) -> (out: Decimal)
        ensures
            out.source() == self.source(),
            out.number() == self.number(),
    {
        self.duplicate()
    }
}

/// A JSON document. An object lists its fields in the order in which
/// they were set; of fields with the same key the last one counts.
#[derive(Debug, PartialEq)]
pub enum Json {
    Null,
    Bool(bool),
    /// A whole number within the range of `i64`.
    Int(i64),
    /// A whole number, for those above the range of `i64`.
    UInt(u64),
    /// A floating-point number.
    Real(Decimal),
    Str(String),
    Array(Vec<Json>),
    Object(Vec<(String, Json)>),
}

/// The value of a document.
pub open spec fn json_value(doc: Json) -> JsonValue
    decreases doc,
{
    match doc {
        Json::Null => JsonValue::Null,
        Json::Bool(b) => JsonValue::Bool(b),
        Json::Int(i) => JsonValue::Int(i as int),
        Json::UInt(u) => JsonValue::Int(u as int),
        Json::Real(d) => JsonValue::Real(d.number()),
        Json::Str(s) => JsonValue::Str(s@),
        Json::Array(items) => JsonValue::Array(
            Seq::new(
                items@.len(),
                |i: int|
                    if 0 <= i < items@.len() {
                        json_value(items@[i])
                    } else {
                        JsonValue::Null
                    },
            ),
        ),
        Json::Object(fields) => JsonValue::Object(fields_map(listed_fields(fields@))),
    }
}

/// The fields in `fields` as pairs of key text and value, in order.
pub open spec fn listed_fields(fields: Seq<(String, Json)>) -> Seq<(Seq<char>, JsonValue)>
    decreases fields,
{
    Seq::new(
        fields.len(),
        |i: int|
            if 0 <= i < fields.len() {
                (fields[i].0@, json_value(fields[i].1))
            } else {
                (Seq::empty(), JsonValue::Null)
            },
    )
}

impl View for Json {
    type V = JsonValue;

    open spec fn view(&self) -> JsonValue {
        json_value(*self)
    }
}

/// The values of the documents in `items`, in order.
pub open spec fn values_of(items: Seq<Json>) -> Seq<JsonValue> {
    Seq::new(items.len(), |i: int| items[i]@)
}

/// The fields in `fields` as pairs of key text and value, in order.
pub open spec fn fields_of(fields: Seq<(String, Json)>) -> Seq<(Seq<char>, JsonValue)> {
    Seq::new(fields.len(), |i: int| (fields[i].0@, fields[i].1@))
}

/// The value of an array document is the array of its items' values.
pub proof fn lemma_array_view(items: Vec<Json>)
    ensures
        Json::Array(items)@ == JsonValue::Array(values_of(items@)),
{
    assert(Json::Array(items)@->Array_0 =~= values_of(items@));
}

/// The value of an object document is the map of its fields' values.
pub proof fn lemma_object_view(fields: Vec<(String, Json)>)
    ensures
        Json::Object(fields)@ == JsonValue::Object(fields_map(fields_of(fields@))),
{
    let listed = listed_fields(fields@);
    assert(listed =~= fields_of(fields@));
}

/// `s` with every `~` that is followed by `second` replaced, together
/// with that follower, by `with`; read from the left, without overlap.
pub open spec fn replace_escape(s: Seq<char>, second: char, with: char) -> Seq<char>
    decreases s.len(),
{
    if s.len() == 0 {
        s
    } else if s.len() >= 2 && s[0] == '~' && s[1] == second {
        seq![with] + replace_escape(s.skip(2), second, with)
    } else {
        seq![s[0]] + replace_escape(s.drop_first(), second, with)
    }
}

/// A reference token of a JSON pointer with its escapes resolved: first
/// `~1` to `/`, then `~0` to `~`.
pub open spec fn unescape_token(s: Seq<char>) -> Seq<char> {
    replace_escape(replace_escape(s, '1', '/'), '0', '~')
}

/// The array index that a reference token names: decimal digits, without
/// a sign and without a leading zero unless it is `0` itself.
pub open spec fn array_index(token: Seq<char>) -> Option<int> {
    if token.len() > 0 && all_digits(token) && (token.len() == 1 || token[0] != '0') {
        Some(digits_value(token))
    } else {
        None
    }
}

/// The reference tokens of a pointer that begins with `/`.
pub open spec fn pointer_tokens(path: Seq<char>) -> Seq<Seq<char>> {
    let pieces = split_text(path, '/').drop_first();
    Seq::new(pieces.len(), |i: int| unescape_token(pieces[i]))
}

impl JsonValue {
    /// The value of the field with key `key`, of an object.
    pub open spec fn field(self, key: Seq<char>) -> Option<JsonValue> {
        match self {
            JsonValue::Object(fields) => if fields.dom().contains(key) {
                Some(fields[key])
            } else {
                None
            },
            _ => None,
        }
    }

    /// The item at `index`, of an array.
    pub open spec fn element(self, index: int) -> Option<JsonValue> {
        match self {
            JsonValue::Array(items) => if 0 <= index < items.len() {
                Some(items[index])
            } else {
                None
            },
            _ => None,
        }
    }

    /// The text, of a string.
    pub open spec fn text(self) -> Option<Seq<char>> {
        match self {
            JsonValue::Str(s) => Some(s),
            _ => None,
        }
    }

    /// The items, of an array.
    pub open spec fn items(self) -> Option<Seq<JsonValue>> {
        match self {
            JsonValue::Array(items) => Some(items),
            _ => None,
        }
    }

    /// The whole number, of a number that is one.
    pub open spec fn whole(self) -> Option<int> {
        match self {
            JsonValue::Int(i) => Some(i),
            _ => None,
        }
    }

    /// What one reference token leads to: a field of an object, an item
    /// of an array, nothing of anything else.
    pub open spec fn step(self, token: Seq<char>) -> Option<JsonValue> {
        match self {
            JsonValue::Object(_) => self.field(token),
            JsonValue::Array(_) => match array_index(token) {
                Some(i) => self.element(i),
                None => None,
            },
            _ => None,
        }
    }

    /// What a sequence of reference tokens leads to, from this value.
    pub open spec fn walk(self, tokens: Seq<Seq<char>>) -> Option<JsonValue>
        decreases tokens.len(),
    {
        if tokens.len() == 0 {
            Some(self)
        } else {
            match self.step(tokens[0]) {
                Some(next) => next.walk(tokens.drop_first()),
                None => None,
            }
        }
    }

    /// What a JSON pointer leads to: the empty pointer to the value
    /// itself, one that begins with `/` along its tokens, any other to
    /// nothing.
    pub open spec fn pointer(self, path: Seq<char>) -> Option<JsonValue> {
        if path.len() == 0 {
            Some(self)
        } else if path[0] != '/' {
            None
        } else {
            self.walk(pointer_tokens(path))
        }
    }

    /// An object with the field `key` set to `value`. Any other value is
    /// left as it is.
    pub open spec fn with_field(self, key: Seq<char>, value: JsonValue) -> JsonValue {
        match self {
            JsonValue::Object(fields) => JsonValue::Object(fields.insert(key, value)),
            _ => self,
        }
    }

    /// An object without the field `key`. Any other value is left as it
    /// is.
    pub open spec fn without_field(self, key: Seq<char>) -> JsonValue {
        match self {
            JsonValue::Object(fields) => JsonValue::Object(fields.remove(key)),
            _ => self,
        }
    }
}

/// Resolves the escapes with follower `second` in a reference token.
pub fn replace_escape_chars(s: &Vec<char>, second: char, with: char) -> (out: Vec<char>)
    ensures
        out@ == replace_escape(s@, second, with),
{
    let mut out: Vec<char> = Vec::new();
    let mut i: usize = 0;
    assert(s@.skip(0) =~= s@);
    while i < s.len()
        invariant
            i <= s.len(),
            out@ + replace_escape(s@.skip(i as int), second, with) == replace_escape(
                s@,
                second,
                with,
            ),
        decreases s.len() - i,
    {
        let ghost rest = s@.skip(i as int);
        if s[i] == '~' && i + 1 < s.len() && s[i + 1] == second {
            assert(rest.skip(2) =~= s@.skip(i + 2));
            assert(out@.push(with) + replace_escape(s@.skip(i + 2), second, with) =~= out@
                + replace_escape(rest, second, with));
            out.push(with);
            i += 2;
        } else {
            assert(rest.drop_first() =~= s@.skip(i + 1));
            assert(out@.push(s@[i as int]) + replace_escape(s@.skip(i + 1), second, with) =~= out@
                + replace_escape(rest, second, with));
            out.push(s[i]);
            i += 1;
        }
    }
    assert(out@ + replace_escape(s@.skip(s.len() as int), second, with) =~= out@);
    out
}

/// Resolves the escapes of a reference token.
pub fn unescape_chars(s: &Vec<char>) -> (out: Vec<char>)
    ensures
        out@ == unescape_token(s@),
{
    let slashes = replace_escape_chars(s, '1', '/');
    replace_escape_chars(&slashes, '0', '~')
}

/// The array index that a reference token names, where it is one that an
/// array of `len` items has.
pub fn index_of_token(token: &Vec<char>, len: usize) -> (out: Option<usize>)
    ensures
        match out {
            Some(i) => array_index(token@) == Some(i as int) && i < len,
            None => match array_index(token@) {
                Some(i) => i >= len,
                None => true,
            },
        },
{
    let n: usize = token.len();
    if n == 0 {
        return None;
    }
    if token[0] == '0' && n != 1 {
        return None;
    }
    let mut acc: usize = 0;
    let mut i: usize = 0;
    assert(token@.take(0) =~= Seq::<char>::empty());
    while i < n
        invariant
            i <= n == token.len(),
            n > 0,
            n == 1 || token@[0] != '0',
            all_digits(token@.take(i as int)),
            acc == digits_value(token@.take(i as int)),
            i > 0 ==> acc < len,
        decreases n - i,
    {
        let code: u32 = token[i] as u32;
        if code < 48 || code > 57 {
            assert(!is_digit(token@[i as int]));
            return None;
        }
        assert(token@.take(i + 1).drop_last() =~= token@.take(i as int));
        assert(token@.take(i + 1).last() == token@[i as int]);
        assert forall|k: int| 0 <= k < i + 1 implies is_digit(#[trigger] token@.take(i + 1)[k]) by {
            if k < i {
                assert(token@.take(i as int)[k] == token@.take(i + 1)[k]);
            }
        }
        let next: u128 = (acc as u128) * 10 + ((code - 48) as u128);
        if next >= len as u128 {
            proof {
                if all_digits(token@) {
                    lemma_digits_monotone(token@, i + 1);
                }
            }
            return None;
        }
        acc = next as usize;
        i += 1;
    }
    assert(token@.take(n as int) =~= token@);
    Some(acc)
}

impl Json {
    /// A string document with the text `s`.
    pub fn text(s: &str) -> (out: Json)
        ensures
            out@ == JsonValue::Str(s@),
    {
        Json::Str(s.to_owned())
    }

    /// An object document without fields.
    pub fn empty_object() -> (out: Json)
        ensures
            out@ == JsonValue::Object(Map::empty()),
    {
        let fields: Vec<(String, Json)> = Vec::new();
        let out = Json::Object(fields);
        proof {
            lemma_object_view(fields);
            assert(fields_of(fields@) =~= Seq::empty());
        }
        out
    }

    /// A copy of this document.
    #[verifier::loop_isolation(false)]
    pub fn duplicate(&self) -> (out: Json)
        ensures
            out@ == self@,
        decreases self,
    {
        match self {
            Json::Null => Json::Null,
            Json::Bool(b) => Json::Bool(*b),
            Json::Int(i) => Json::Int(*i),
            Json::UInt(u) => Json::UInt(*u),
            Json::Real(d) => Json::Real(d.duplicate()),
            Json::Str(s) => Json::Str(s.clone()),
            Json::Array(items) => {
                let mut out: Vec<Json> = Vec::new();
                let mut i: usize = 0;
                while i < items.len()
                    invariant
                        i <= items.len(),
                        out.len() == i,
                        forall|k: int| 0 <= k < i ==> out@[k]@ == items@[k]@,
                    decreases items.len() - i,
                {
                    out.push(items[i].duplicate());
                    i += 1;
                }
                let r = Json::Array(out);
                assert(r@->Array_0 =~= self@->Array_0);
                r
            },
            Json::Object(fields) => {
                let mut out: Vec<(String, Json)> = Vec::new();
                let mut i: usize = 0;
                while i < fields.len()
                    invariant
                        i <= fields.len(),
                        out.len() == i,
                        forall|k: int|
                            0 <= k < i ==> out@[k].0@ == fields@[k].0@ && out@[k].1@
                                == fields@[k].1@,
                    decreases fields.len() - i,
                {
                    out.push((fields[i].0.clone(), fields[i].1.duplicate()));
                    i += 1;
                }
                let r = Json::Object(out);
                proof {
                    lemma_object_view(out);
                    lemma_object_view(*fields);
                    assert(fields_of(out@) =~= fields_of(fields@));
                }
                r
            },
        }
    }

    /// Whether this document is `null`.
    pub fn is_null(&self) -> (out: bool)
        ensures
            out == (self@ == JsonValue::Null),
    {
        match self {
            Json::Null => true,
            _ => false,
        }
    }

    /// The text of a string document.
    pub fn as_str(&self) -> (out: Option<&str>)
        ensures
            match out {
                Some(s) => self@.text() == Some(s@),
                None => self@.text() is None,
            },
    {
        match self {
            Json::Str(s) => Some(s.as_str()),
            _ => None,
        }
    }

    /// The items of an array document.
    pub fn as_array(&self) -> (out: Option<&Vec<Json>>)
        ensures
            match out {
                Some(items) => self@.items() == Some(values_of(items@)),
                None => self@.items() is None,
            },
    {
        match self {
            Json::Array(items) => {
                proof {
                    lemma_array_view(*items);
                }
                Some(items)
            },
            _ => None,
        }
    }

    /// The number of a whole-number document, where `i64` holds it.
    pub fn as_i64(&self) -> (out: Option<i64>)
        ensures
            match out {
                Some(n) => self@.whole() == Some(n as int),
                None => match self@.whole() {
                    Some(n) => n > i64::MAX,
                    None => true,
                },
            },
    {
        match self {
            Json::Int(i) => Some(*i),
            Json::UInt(u) => if *u <= 9223372036854775807u64 {
                Some(*u as i64)
            } else {
                None
            },
            _ => None,
        }
    }

    /// The number of a whole-number document, where `u64` holds it.
    pub fn as_u64(&self) -> (out: Option<u64>)
        ensures
            match out {
                Some(n) => self@.whole() == Some(n as int),
                None => match self@.whole() {
                    Some(n) => n < 0,
                    None => true,
                },
            },
    {
        match self {
            Json::Int(i) => if *i >= 0 {
                Some(*i as u64)
            } else {
                None
            },
            Json::UInt(u) => Some(*u),
            _ => None,
        }
    }

    /// The value of the field with key `key`, of an object.
    pub fn get(&self, key: &str) -> (out: Option<&Json>)
        ensures
            match out {
                Some(j) => self@.field(key@) == Some(j@),
                None => self@.field(key@) is None,
            },
    {
        match self {
            Json::Object(fields) => {
                proof {
                    lemma_object_view(*fields);
                }
                let wanted: String = key.to_owned();
                let mut i: usize = fields.len();
                while i > 0
                    invariant
                        i <= fields.len(),
                        wanted@ == key@,
                        self@ == JsonValue::Object(fields_map(fields_of(fields@))),
                        forall|k: int|
                            i <= k < fields.len() ==> (#[trigger] fields_of(fields@)[k]).0
                                != key@,
                    decreases i,
                {
                    i -= 1;
                    if fields[i].0 == wanted {
                        proof {
                            lemma_last_key(fields_of(fields@), key@, i as int);
                        }
                        return Some(&fields[i].1);
                    }
                }
                proof {
                    lemma_no_key(fields_of(fields@), key@);
                }
                None
            },
            _ => None,
        }
    }

    /// The item at `index`, of an array.
    pub fn at(&self, index: usize) -> (out: Option<&Json>)
        ensures
            match out {
                Some(j) => self@.element(index as int) == Some(j@),
                None => self@.element(index as int) is None,
            },
    {
        match self {
            Json::Array(items) => {
                proof {
                    lemma_array_view(*items);
                }
                if index < items.len() {
                    Some(&items[index])
                } else {
                    None
                }
            },
            _ => None,
        }
    }

    /// What the reference token `token` leads to from this document.
    pub fn step(&self, token: &Vec<char>) -> (out: Option<&Json>)
        ensures
            match out {
                Some(j) => self@.step(token@) == Some(j@),
                None => self@.step(token@) is None,
            },
    {
        match self {
            Json::Object(_) => {
                let key = string_of(token);
                self.get(key.as_str())
            },
            Json::Array(items) => {
                proof {
                    lemma_array_view(*items);
                }
                match index_of_token(token, items.len()) {
                    Some(i) => Some(&items[i]),
                    None => None,
                }
            },
            _ => None,
        }
    }

    /// What the JSON pointer `path` leads to in this document.
    pub fn pointer(&self, path: &str) -> (out: Option<&Json>)
        ensures
            match out {
                Some(j) => self@.pointer(path@) == Some(j@),
                None => self@.pointer(path@) is None,
            },
    {
        let chars = chars_of(path);
        if chars.len() == 0 {
            return Some(self);
        }
        if chars[0] != '/' {
            return None;
        }
        let pieces = split_chars(&chars, '/');
        proof {
            lemma_split_nonempty(path@, '/');
        }
        let ghost tokens = pointer_tokens(path@);
        let mut current: &Json = self;
        let mut i: usize = 1;
        assert(tokens.skip(0) =~= tokens);
        while i < pieces.len()
            invariant
                1 <= i <= pieces.len(),
                texts_of(pieces@) == split_text(path@, '/'),
                tokens == pointer_tokens(path@),
                tokens.len() == pieces.len() - 1,
                self@.walk(tokens) == current@.walk(tokens.skip(i - 1)),
            decreases pieces.len() - i,
        {
            let token = unescape_chars(&pieces[i]);
            let ghost rest = tokens.skip(i - 1);
            assert(rest[0] == token@) by {
                assert(texts_of(pieces@)[i as int] == pieces@[i as int]@);
            }
            assert(rest.drop_first() =~= tokens.skip(i as int));
            match current.step(&token) {
                Some(next) => {
                    current = next;
                },
                None => {
                    return None;
                },
            }
            i += 1;
        }
        Some(current)
    }

    /// This document with the field `key` set to `value`, where it is an
    /// object; as it is, where it is not.
    pub fn with_field(self, key: &str, value: Json) -> (out: Json)
        ensures
            out@ == self@.with_field(key@, value@),
    {
        match self {
            Json::Object(fields) => {
                proof {
                    lemma_object_view(fields);
                }
                let ghost before = fields_of(fields@);
                let mut fields = fields;
                fields.push((key.to_owned(), value));
                let out = Json::Object(fields);
                proof {
                    lemma_object_view(fields);
                    assert(fields_of(fields@) =~= before.push((key@, value@)));
                    assert(before.push((key@, value@)).drop_last() =~= before);
                }
                out
            },
            other => other,
        }
    }

    /// This document without the field `key`, where it is an object; as
    /// it is, where it is not.
    pub fn without_field(self, key: &str) -> (out: Json)
        ensures
            out@ == self@.without_field(key@),
    {
        match self {
            Json::Object(fields) => {
                proof {
                    lemma_object_view(fields);
                }
                let ghost before = fields_of(fields@);
                let ghost keep = has_other_key::<JsonValue>(key@);
                let wanted: String = key.to_owned();
                let mut kept = fields;
                let mut i: usize = 0;
                let ghost mut seen: int = 0;
                proof {
                    assert(before.take(0) =~= Seq::empty());
                    assert(fields_of(kept@).take(0) =~= before.take(0).filter(keep));
                    assert(fields_of(kept@).skip(0) =~= before.skip(0));
                }
                while i < kept.len()
                    invariant
                        wanted@ == key@,
                        keep == has_other_key::<JsonValue>(key@),
                        i <= kept.len(),
                        0 <= seen <= before.len(),
                        kept.len() - i == before.len() - seen,
                        fields_of(kept@).take(i as int) == before.take(seen).filter(keep),
                        fields_of(kept@).skip(i as int) == before.skip(seen),
                    decreases kept.len() - i,
                {
                    let ghost now = fields_of(kept@);
                    proof {
                        assert(now.skip(i as int)[0] == before.skip(seen)[0]);
                        assert(before.take(seen + 1) =~= before.take(seen).push(before[seen]));
                        lemma_filter_push(before.take(seen), before[seen], keep);
                    }
                    if kept[i].0 == wanted {
                        kept.remove(i);
                        proof {
                            assert(fields_of(kept@) =~= now.remove(i as int));
                            assert(fields_of(kept@).take(i as int) =~= now.take(i as int));
                            assert(fields_of(kept@).skip(i as int) =~= now.skip(i as int).drop_first());
                            assert(before.skip(seen).drop_first() =~= before.skip(seen + 1));
                            seen = seen + 1;
                        }
                    } else {
                        proof {
                            assert(now.take(i + 1) =~= now.take(i as int).push(now[i as int]));
                            assert(now.skip(i as int).drop_first() =~= now.skip(i + 1));
                            assert(before.skip(seen).drop_first() =~= before.skip(seen + 1));
                            seen = seen + 1;
                        }
                        i += 1;
                    }
                }
                proof {
                    assert(before.take(before.len() as int) =~= before);
                    assert(fields_of(kept@).take(kept.len() as int) =~= fields_of(kept@));
                }
                let out = Json::Object(kept);
                proof {
                    lemma_object_view(kept);
                    lemma_fields_map_without(before, key@);
                }
                out
            },
            other => other,
        }
    }
}

impl Json {
    /// The array document of `items`.
    pub fn array(items: Vec<Json>) -> (out: Json)
        ensures
            out@ == JsonValue::Array(values_of(items@)),
    {
        proof {
            lemma_array_view(items);
        }
        Json::Array(items)
    }

    /// A copy of each of `items`.
    pub fn duplicate_all(items: &Vec<Json>) -> (out: Vec<Json>)
        ensures
            values_of(out@) == values_of(items@),
    {
        let mut out: Vec<Json> = Vec::new();
        let mut i: usize = 0;
        while i < items.len()
            invariant
                i <= items.len(),
                out.len() == i,
                forall|k: int| 0 <= k < i ==> out@[k]@ == items@[k]@,
            decreases items.len() - i,
        {
            out.push(items[i].duplicate());
            i += 1;
        }
        assert(values_of(out@) =~= values_of(items@));
        out
    }
}

} // verus!
