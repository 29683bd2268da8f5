//! Text handled as sequences of characters: trimming, splitting, searching,
//! decimal numbers.

use vstd::prelude::*;

verus! {

/// The lowercase form of a text, as `str::to_lowercase` gives it.
pub uninterp spec fn lowercase_text(s: Seq<char>) -> Seq<char>;

/// Whether a character is white space, as `char::is_whitespace` tells it.
pub uninterp spec fn whitespace_char(c: char) -> bool;

/// `str::to_lowercase`: the result is the lowercase form of the argument.
#[verifier::external_body]
pub(crate) fn lowercase(s: &str) -> (out: String)
    ensures
        out@ == lowercase_text(s@),
{
    s.to_lowercase()
}

/// `char::is_whitespace`: tells whether the character is white space.
#[verifier::external_body]
pub(crate) fn is_space(c: char) -> (out: bool)
    ensures
        out == whitespace_char(c),
{
    c.is_whitespace()
}

/// `String::from_iter` over the characters: the string made of exactly
/// these characters, in order.
#[verifier::external_body]
pub(crate) fn string_of(chars: &Vec<char>) -> (out: String)
    ensures
        out@ == chars@,
{
    String::from_iter(chars.iter())
}

/// Whether the two texts hold the same characters.
pub(crate) fn same_text(a: &str, b: &str) -> (out: bool)
    ensures
        out == (a@ == b@),
{
    same_chars(&chars_of(a), &chars_of(b))
}

/// The characters of `s`, in order.
pub fn chars_of(s: &str) -> (out: Vec<char>)
    ensures
        out@ == s@,
{
    let mut out: Vec<char> = Vec::new();
    for c in it: s.chars()
        invariant
            out@ == it.seq().take(it.index() as int),
    {
        out.push(c);
    }
    out
}

/// The lowercase form of `s`, as characters.
pub fn lowercase_chars(s: &str) -> (out: Vec<char>)
    ensures
        out@ == lowercase_text(s@),
{
    let lowered = lowercase(s);
    chars_of(lowered.as_str())
}

/// Appends the characters of `s` to `out`.
pub fn push_text(out: &mut Vec<char>, s: &str)
    ensures
        final(out)@ == old(out)@ + s@,
{
    let ghost before = out@;
    for c in it: s.chars()
        invariant
            out@ == before + it.seq().take(it.index() as int),
    {
        out.push(c);
    }
}

/// Appends the characters of `more` to `out`.
pub fn push_chars(out: &mut Vec<char>, more: &Vec<char>)
    ensures
        final(out)@ == old(out)@ + more@,
{
    let ghost before = out@;
    let mut i: usize = 0;
    while i < more.len()
        invariant
            i <= more.len(),
            out@ == before + more@.take(i as int),
        decreases more.len() - i,
    {
        out.push(more[i]);
        i += 1;
    }
    assert(more@.take(more.len() as int) =~= more@);
}

/// The characters of `v` from index `from` up to, not including, `to`.
pub fn sub_chars(v: &Vec<char>, from: usize, to: usize) -> (out: Vec<char>)
    requires
        from <= to <= v.len(),
    ensures
        out@ == v@.subrange(from as int, to as int),
{
    let mut out: Vec<char> = Vec::new();
    let mut i: usize = from;
    while i < to
        invariant
            from <= i <= to <= v.len(),
            out@ == v@.subrange(from as int, i as int),
        decreases to - i,
    {
        out.push(v[i]);
        i += 1;
    }
    out
}

/// Whether `a` and `b` hold the same characters.
pub fn same_chars(a: &Vec<char>, b: &Vec<char>) -> (out: bool)
    ensures
        out == (a@ == b@),
{
    if a.len() != b.len() {
        return false;
    }
    let mut i: usize = 0;
    while i < a.len()
        invariant
            i <= a.len(),
            a.len() == b.len(),
            a@.take(i as int) == b@.take(i as int),
        decreases a.len() - i,
    {
        if a[i] != b[i] {
            return false;
        }
        assert(a@.take(i + 1) =~= a@.take(i as int).push(a@[i as int]));
        assert(b@.take(i + 1) =~= b@.take(i as int).push(b@[i as int]));
        i += 1;
    }
    assert(a@.take(a.len() as int) =~= a@);
    assert(b@.take(b.len() as int) =~= b@);
    true
}

/// Whether `s` begins with `prefix`.
pub open spec fn has_prefix(s: Seq<char>, prefix: Seq<char>) -> bool {
    prefix.len() <= s.len() && s.take(prefix.len() as int) == prefix
}

/// Whether `needle` occurs in `hay` at offset `at`.
pub open spec fn occurs_at(hay: Seq<char>, needle: Seq<char>, at: int) -> bool {
    0 <= at && at + needle.len() <= hay.len() && hay.subrange(at, at + needle.len()) == needle
}

/// Whether `needle` occurs somewhere in `hay`. The empty text occurs in
/// every text.
pub open spec fn has_substring(hay: Seq<char>, needle: Seq<char>) -> bool {
    exists|at: int| occurs_at(hay, needle, at)
}

/// Whether `needle` occurs in `hay` at offset `at`.
pub fn found_at(hay: &Vec<char>, needle: &Vec<char>, at: usize) -> (out: bool)
    ensures
        out == occurs_at(hay@, needle@, at as int),
{
    if needle.len() > hay.len() || at > hay.len() - needle.len() {
        return false;
    }
    let mut i: usize = 0;
    while i < needle.len()
        invariant
            i <= needle.len(),
            at + needle.len() <= hay.len(),
            hay@.subrange(at as int, at + i) == needle@.take(i as int),
        decreases needle.len() - i,
    {
        if hay[at + i] != needle[i] {
            assert(hay@.subrange(at as int, at + needle.len())[i as int] != needle@[i as int]);
            return false;
        }
        assert(hay@.subrange(at as int, at + i + 1) =~= hay@.subrange(at as int, at + i).push(
            hay@[at + i],
        ));
        assert(needle@.take(i + 1) =~= needle@.take(i as int).push(needle@[i as int]));
        i += 1;
    }
    assert(needle@.take(needle.len() as int) =~= needle@);
    true
}

/// Whether `s` begins with `prefix`.
pub fn starts_with_chars(s: &Vec<char>, prefix: &Vec<char>) -> (out: bool)
    ensures
        out == has_prefix(s@, prefix@),
{
    let r = found_at(s, prefix, 0);
    proof {
        if prefix.len() <= s.len() {
            assert(s@.subrange(0, prefix.len() as int) =~= s@.take(prefix.len() as int));
        }
    }
    r
}

/// Whether `needle` occurs somewhere in `hay`.
pub fn contains_chars(hay: &Vec<char>, needle: &Vec<char>) -> (out: bool)
    ensures
        out == has_substring(hay@, needle@),
{
    if needle.len() == 0 {
        assert(hay@.subrange(0, 0) =~= needle@);
        assert(occurs_at(hay@, needle@, 0));
        return true;
    }
    if needle.len() > hay.len() {
        return false;
    }
    let last: usize = hay.len() - needle.len();
    let mut at: usize = 0;
    while at <= last
        invariant
            last == hay.len() - needle.len(),
            last < hay.len(),
            at <= last + 1,
            forall|k: int| 0 <= k < at ==> !occurs_at(hay@, needle@, k),
        decreases last + 1 - at,
    {
        if found_at(hay, needle, at) {
            return true;
        }
        at += 1;
    }
    false
}

/// `s` without the white space at its start.
pub open spec fn trim_start_text(s: Seq<char>) -> Seq<char>
    decreases s.len(),
{
    if s.len() > 0 && whitespace_char(s[0]) {
        trim_start_text(s.drop_first())
    } else {
        s
    }
}

/// `s` without the white space at its end.
pub open spec fn trim_end_text(s: Seq<char>) -> Seq<char>
    decreases s.len(),
{
    if s.len() > 0 && whitespace_char(s.last()) {
        trim_end_text(s.drop_last())
    } else {
        s
    }
}

/// `s` without the white space at either end.
pub open spec fn trim_text(s: Seq<char>) -> Seq<char> {
    trim_end_text(trim_start_text(s))
}

/// `v` without the white space at either end.
pub fn trim_chars(v: &Vec<char>) -> (out: Vec<char>)
    ensures
        out@ == trim_text(v@),
{
    let n: usize = v.len();
    let mut from: usize = 0;
    assert(v@.subrange(0, n as int) =~= v@);
    while from < n && is_space(v[from])
        invariant
            from <= n == v.len(),
            trim_start_text(v@) == trim_start_text(v@.subrange(from as int, n as int)),
        decreases n - from,
    {
        assert(v@.subrange(from as int, n as int).drop_first() =~= v@.subrange(
            from + 1,
            n as int,
        ));
        from += 1;
    }
    let mut to: usize = n;
    while to > from && is_space(v[to - 1])
        invariant
            from <= to <= n == v.len(),
            trim_start_text(v@) == v@.subrange(from as int, n as int),
            trim_text(v@) == trim_end_text(v@.subrange(from as int, to as int)),
        decreases to - from,
    {
        assert(v@.subrange(from as int, to as int).drop_last() =~= v@.subrange(
            from as int,
            to - 1,
        ));
        to -= 1;
    }
    sub_chars(v, from, to)
}

/// The pieces of `s` between occurrences of `sep`: a text with `k`
/// separators has `k + 1` pieces, some of them possibly empty.
pub open spec fn split_text(s: Seq<char>, sep: char) -> Seq<Seq<char>>
    decreases s.len(),
{
    if s.len() == 0 {
        seq![Seq::<char>::empty()]
    } else {
        let before = split_text(s.drop_last(), sep);
        if s.last() == sep {
            before.push(Seq::<char>::empty())
        } else {
            before.drop_last().push(before.last().push(s.last()))
        }
    }
}

/// The contents of the texts in `parts`, in order.
pub open spec fn texts_of(parts: Seq<Vec<char>>) -> Seq<Seq<char>> {
    Seq::new(parts.len(), |i: int| parts[i]@)
}

/// Splitting always yields at least one piece.
pub proof fn lemma_split_nonempty(s: Seq<char>, sep: char)
    ensures
        split_text(s, sep).len() >= 1,
    decreases s.len(),
{
    if s.len() > 0 {
        lemma_split_nonempty(s.drop_last(), sep);
    }
}

/// The pieces of `v` between occurrences of `sep`.
pub fn split_chars(v: &Vec<char>, sep: char) -> (out: Vec<Vec<char>>)
    ensures
        texts_of(out@) == split_text(v@, sep),
{
    let mut out: Vec<Vec<char>> = Vec::new();
    let mut current: Vec<char> = Vec::new();
    let mut i: usize = 0;
    assert(v@.take(0) =~= Seq::<char>::empty());
    assert(texts_of(out@).push(current@) =~= split_text(v@.take(0), sep));
    while i < v.len()
        invariant
            i <= v.len(),
            texts_of(out@).push(current@) == split_text(v@.take(i as int), sep),
        decreases v.len() - i,
    {
        let ghost done = texts_of(out@);
        let ghost cur = current@;
        let c = v[i];
        assert(v@.take(i + 1).drop_last() =~= v@.take(i as int));
        assert(v@.take(i + 1).last() == c);
        if c == sep {
            out.push(current);
            current = Vec::new();
            assert(texts_of(out@) =~= done.push(cur));
        } else {
            current.push(c);
            assert(done.push(cur).drop_last() =~= done);
        }
        i += 1;
    }
    assert(v@.take(v.len() as int) =~= v@);
    let ghost done = texts_of(out@);
    let ghost cur = current@;
    out.push(current);
    assert(texts_of(out@) =~= done.push(cur));
    out
}

/// The character for the digit `d`.
pub open spec fn digit_char(d: int) -> char {
    (48 + d) as char
}

/// The decimal numeral of `n`, without leading zeros.
pub open spec fn decimal_text(n: nat) -> Seq<char>
    decreases n,
{
    if n < 10 {
        seq![digit_char(n as int)]
    } else {
        decimal_text(n / 10).push(digit_char((n % 10) as int))
    }
}

/// The decimal numeral of `n`, without leading zeros.
pub fn decimal_chars(n: u64) -> (out: Vec<char>)
    ensures
        out@ == decimal_text(n as nat),
    decreases n,
{
    if n < 10 {
        let mut out: Vec<char> = Vec::new();
        out.push(digit_of((n % 10) as u8));
        out
    } else {
        let mut out = decimal_chars(n / 10);
        out.push(digit_of((n % 10) as u8));
        out
    }
}

/// The character for the digit `d`.
pub fn digit_of(d: u8) -> (out: char)
    requires
        d < 10,
    ensures
        out == digit_char(d as int),
{
    (48u8 + d) as char
}

/// Whether `c` is one of the ten decimal digits.
pub open spec fn is_digit(c: char) -> bool {
    48 <= c as u32 <= 57
}

/// The number that the decimal digits `s` denote.
pub open spec fn digits_value(s: Seq<char>) -> int
    decreases s.len(),
{
    if s.len() == 0 {
        0
    } else {
        digits_value(s.drop_last()) * 10 + (s.last() as u32 - 48)
    }
}

/// Whether `s` holds decimal digits only.
pub open spec fn all_digits(s: Seq<char>) -> bool {
    forall|i: int| 0 <= i < s.len() ==> is_digit(#[trigger] s[i])
}

/// The integer that `s` denotes as a signed decimal numeral: an optional
/// `+` or `-`, then at least one digit, the whole within the range of
/// `i64`. Anything else denotes nothing.
pub open spec fn signed_decimal(s: Seq<char>) -> Option<int> {
    let negative = s.len() > 0 && s[0] == '-';
    let signed = s.len() > 0 && (s[0] == '-' || s[0] == '+');
    let digits = if signed {
        s.drop_first()
    } else {
        s
    };
    let value = if negative {
        -digits_value(digits)
    } else {
        digits_value(digits)
    };
    if digits.len() == 0 || !all_digits(digits) || value < i64::MIN || value > i64::MAX {
        None
    } else {
        Some(value)
    }
}

/// A prefix of a digit string denotes no more than the whole string.
pub proof fn lemma_digits_monotone(s: Seq<char>, k: int)
    requires
        all_digits(s),
        0 <= k <= s.len(),
    ensures
        0 <= digits_value(s.take(k)) <= digits_value(s),
    decreases s.len() - k,
{
    if k == s.len() {
        assert(s.take(k) =~= s);
        lemma_digits_nonnegative(s);
    } else {
        lemma_digits_monotone(s, k + 1);
        assert(s.take(k + 1).drop_last() =~= s.take(k));
        assert(is_digit(s[k]));
        assert(s.take(k + 1).last() == s[k]);
        lemma_digits_nonnegative(s.take(k));
    }
}

/// A digit string denotes a natural number.
pub proof fn lemma_digits_nonnegative(s: Seq<char>)
    requires
        all_digits(s),
    ensures
        0 <= digits_value(s),
    decreases s.len(),
{
    if s.len() > 0 {
        assert(is_digit(s[s.len() - 1]));
        lemma_digits_nonnegative(s.drop_last());
    }
}

/// Reads `v` as a signed decimal numeral.
#[verifier::loop_isolation(false)]
pub fn parse_decimal(v: &Vec<char>) -> (out: Option<i64>)
    ensures
        match out {
            Some(n) => signed_decimal(v@) == Some(n as int),
            None => signed_decimal(v@) is None,
        },
{
    let n: usize = v.len();
    if n == 0 {
        return None;
    }
    let negative: bool = v[0] == '-';
    let start: usize = if v[0] == '-' || v[0] == '+' {
        1
    } else {
        0
    };
    if start == n {
        return None;
    }
    let ghost digits = if start == 1 {
        v@.drop_first()
    } else {
        v@
    };
    assert(digits =~= v@.subrange(start as int, n as int));
    let mut acc: i128 = 0;
    let mut i: usize = start;
    assert(digits.take(0) =~= Seq::<char>::empty());
    while i < n
        invariant
            start <= i <= n == v.len(),
            digits == v@.subrange(start as int, n as int),
            all_digits(digits.take(i - start)),
            acc == digits_value(digits.take(i - start)),
            0 <= acc <= i64::MAX + 1,
        decreases n - i,
    {
        let c = v[i];
        let code: u32 = c as u32;
        if code < 48 || code > 57 {
            assert(!is_digit(digits[i - start]));
            return None;
        }
        assert(digits.take(i - start + 1).drop_last() =~= digits.take(i - start));
        assert(digits.take(i - start + 1).last() == c);
        let next: i128 = acc * 10 + (code as i128 - 48);
        assert forall|k: int| 0 <= k < i - start + 1 implies is_digit(
            #[trigger] digits.take(i - start + 1)[k],
        ) by {
            if k < i - start {
                assert(digits.take(i - start)[k] == digits.take(i - start + 1)[k]);
            }
        }
        if next > 9223372036854775808i128 {
            let mut j: usize = i + 1;
            while j < n
                invariant
                    start <= i < j <= n == v.len(),
                    digits == v@.subrange(start as int, n as int),
                    all_digits(digits.take(j - start)),
                decreases n - j,
            {
                let d: u32 = v[j] as u32;
                if d < 48 || d > 57 {
                    assert(!is_digit(digits[j - start]));
                    return None;
                }
                assert forall|k: int| 0 <= k < j - start + 1 implies is_digit(
                    #[trigger] digits.take(j - start + 1)[k],
                ) by {
                    if k < j - start {
                        assert(digits.take(j - start)[k] == digits.take(j - start + 1)[k]);
                    }
                }
                j += 1;
            }
            proof {
                assert(digits.take(n - start) =~= digits);
                lemma_digits_monotone(digits, i - start + 1);
            }
            return None;
        }
        acc = next;
        i += 1;
    }
    assert(digits.take(n - start) =~= digits);
    if negative {
        Some((-acc) as i64)
    } else if acc > 9223372036854775807i128 {
        None
    } else {
        Some(acc as i64)
    }
}

/// The decimal numeral of `n`, as a string.
pub fn decimal_string(n: u64) -> (out: String)
    ensures
        out@ == decimal_text(n as nat),
{
    let chars = decimal_chars(n);
    string_of(&chars)
}

/// The decimal numeral of `n`, with a leading zero where it has one digit.
pub open spec fn two_digit_text(n: nat) -> Seq<char> {
    if n < 10 {
        seq!['0'] + decimal_text(n)
    } else {
        decimal_text(n)
    }
}

/// The decimal numeral of `n`, with a leading zero where it has one digit.
pub fn two_digit_string(n: u8) -> (out: String)
    ensures
        out@ == two_digit_text(n as nat),
{
    let mut chars: Vec<char> = Vec::new();
    if n < 10 {
        chars.push('0');
    }
    let digits = decimal_chars(n as u64);
    push_chars(&mut chars, &digits);
    string_of(&chars)
}

} // verus!
