//! Small verified text helpers shared by the other modules.
use vstd::prelude::*;
use vstd::utf8::encode_utf8;

verus! {

/// `String::push` appends one character at the end of the string.
pub assume_specification[ String::push ](s: &mut String, c: char)
    ensures
        final(s)@ == old(s)@.push(c),
;

/// The decimal digit `d` as a character.
pub open spec fn digit_char(d: int) -> char {
    (('0' as int) + d) as char
}

/// The decimal rendering of a natural number, without leading zeros.
pub open spec fn decimal(n: nat) -> Seq<char>
    decreases n,
{
    if n < 10 {
        seq![digit_char(n as int)]
    } else {
        decimal(n / 10).push(digit_char((n % 10) as int))
    }
}

/// Whether `c` is an ASCII decimal digit.
pub open spec fn is_digit(c: char) -> bool {
    '0' <= c <= '9'
}

/// The number a sequence of decimal digits stands for.
pub open spec fn digits_value(s: Seq<char>) -> nat
    decreases s.len(),
{
    if s.len() == 0 {
        0
    } else {
        digits_value(s.drop_last()) * 10 + ((s.last() as int) - ('0' as int)) as nat
    }
}

/// Whether every character of `s` is a decimal digit.
pub open spec fn all_digits(s: Seq<char>) -> bool {
    forall|i: int| 0 <= i < s.len() ==> is_digit(#[trigger] s[i])
}

/// Reading back a rendered number gives the number, and the rendering is made
/// of digits only.
pub proof fn law_decimal_reads_back(n: nat)
    ensures
        all_digits(decimal(n)),
        decimal(n).len() >= 1,
        digits_value(decimal(n)) == n,
    decreases n,
{
    if n < 10 {
        assert(decimal(n).drop_last() =~= Seq::<char>::empty());
        assert(digits_value(Seq::<char>::empty()) == 0);
    } else {
        law_decimal_reads_back(n / 10);
        assert(decimal(n).drop_last() =~= decimal(n / 10));
    }
}

/// The character for a single decimal digit.
fn digit(d: u8) -> (c: char)
    requires
        d < 10,
    ensures
        c == digit_char(d as int),
{
    (48u8 + d) as char
}

/// Render a number in decimal.
pub fn decimal_text(n: u128) -> (text: String)
    ensures
        text@ == decimal(n as nat),
    decreases n,
{
    if n < 10 {
        let mut text = String::new();
        text.push(digit(n as u8));
        text
    } else {
        let mut text = decimal_text(n / 10);
        text.push(digit((n % 10) as u8));
        text
    }
}

/// Whether two strings hold the same characters.
pub fn same_text(a: &str, b: &str) -> (same: bool)
    ensures
        same == (a@ == b@),
{
    let left = a.as_bytes();
    let right = b.as_bytes();
    proof {
        vstd::utf8::encode_utf8_decode_utf8(a@);
        vstd::utf8::encode_utf8_decode_utf8(b@);
    }
    if left.len() != right.len() {
        return false;
    }
    let mut i: usize = 0;
    while i < left.len()
        invariant
            0 <= i <= left.len(),
            left.len() == right.len(),
            left@ == encode_utf8(a@),
            right@ == encode_utf8(b@),
            forall|j: int| 0 <= j < i ==> left@[j] == right@[j],
        decreases left.len() - i,
    {
        if left[i] != right[i] {
            return false;
        }
        i += 1;
    }
    assert(left@ =~= right@);
    true
}

/// The characters of a string, in order.
pub fn chars_of(s: &str) -> (chars: Vec<char>)
    ensures
        chars@ == s@,
{
    let mut chars: Vec<char> = Vec::new();
    for c in it: s.chars()
        invariant
            it.seq() == s@,
            chars@ == s@.take(it.index() as int),
    {
        chars.push(c);
        assert(chars@ =~= s@.take(it.index() as int + 1));
    }
    assert(chars@ =~= s@);
    chars
}

/// The string made of the characters `from..to`.
pub fn text_of(chars: &Vec<char>, from: usize, to: usize) -> (text: String)
    requires
        from <= to <= chars.len(),
    ensures
        text@ == chars@.subrange(from as int, to as int),
{
    let mut text = String::new();
    let mut i: usize = from;
    while i < to
        invariant
            from <= i <= to <= chars.len(),
            text@ == chars@.subrange(from as int, i as int),
        decreases to - i,
    {
        text.push(chars[i]);
        i += 1;
        assert(text@ =~= chars@.subrange(from as int, i as int));
    }
    text
}

/// Two strings, one after the other.
pub fn joined(a: &str, b: &str) -> (text: String)
    ensures
        text@ == a@ + b@,
{
    let mut text = a.to_owned();
    text.append(b);
    text
}

/// Whether `pattern` stands in `s` at position `at`.
pub open spec fn occurs_at(s: Seq<char>, pattern: Seq<char>, at: int) -> bool {
    &&& 0 <= at
    &&& at + pattern.len() <= s.len()
    &&& s.subrange(at, at + pattern.len()) == pattern
}

/// Whether `pattern` stands anywhere in `s`.
pub open spec fn contains_text(s: Seq<char>, pattern: Seq<char>) -> bool {
    exists|at: int| occurs_at(s, pattern, at)
}

/// The first position at or after `from` where `pattern` stands in `s`.
pub open spec fn find_from(s: Seq<char>, pattern: Seq<char>, from: int) -> Option<int>
    decreases s.len() - from,
{
    if from < 0 || from + pattern.len() > s.len() {
        None
    } else if occurs_at(s, pattern, from) {
        Some(from)
    } else if from >= s.len() {
        None
    } else {
        find_from(s, pattern, from + 1)
    }
}

/// What [`find_from`] finds is an occurrence, and it misses none.
pub proof fn lemma_find_from(s: Seq<char>, pattern: Seq<char>, from: int)
    requires
        0 <= from,
    ensures
        match find_from(s, pattern, from) {
            Some(at) => from <= at && occurs_at(s, pattern, at),
            None => forall|at: int| from <= at ==> !occurs_at(s, pattern, at),
        },
    decreases s.len() - from,
{
    if from + pattern.len() <= s.len() && !occurs_at(s, pattern, from) && from < s.len() {
        lemma_find_from(s, pattern, from + 1);
    }
}

/// Whether `pattern` stands in `chars` at `at`.
pub fn stands_at(chars: &Vec<char>, pattern: &Vec<char>, at: usize) -> (found: bool)
    ensures
        found == occurs_at(chars@, pattern@, at as int),
{
    if at > chars.len() || pattern.len() > chars.len() - at {
        return false;
    }
    let mut i: usize = 0;
    while i < pattern.len()
        invariant
            at + pattern.len() <= chars.len(),
            0 <= i <= pattern.len(),
            forall|j: int| 0 <= j < i ==> chars@[at + j] == pattern@[j],
        decreases pattern.len() - i,
    {
        if chars[at + i] != pattern[i] {
            assert(chars@.subrange(at as int, at + pattern.len())[i as int] != pattern@[i as int]);
            return false;
        }
        i += 1;
    }
    assert(chars@.subrange(at as int, at + pattern.len()) =~= pattern@);
    true
}

/// The first position at or after `from` where `pattern` stands.
pub fn find(chars: &Vec<char>, pattern: &Vec<char>, from: usize) -> (found: Option<usize>)
    requires
        from <= chars.len(),
    ensures
        match found {
            Some(at) => find_from(chars@, pattern@, from as int) == Some(at as int),
            None => find_from(chars@, pattern@, from as int) is None,
        },
        found matches Some(at) ==> from <= at && at + pattern@.len() <= chars@.len(),
{
    proof {
        lemma_find_from(chars@, pattern@, from as int);
    }
    let mut at: usize = from;
    while pattern.len() <= chars.len() - at
        invariant
            from <= at <= chars.len(),
            find_from(chars@, pattern@, from as int) == find_from(chars@, pattern@, at as int),
            find_from(chars@, pattern@, from as int) matches Some(first) ==> first
                + pattern@.len() <= chars@.len(),
        decreases chars.len() - at,
    {
        if stands_at(chars, pattern, at) {
            return Some(at);
        }
        if at == chars.len() {
            return None;
        }
        at += 1;
    }
    None
}

/// Whether `pattern` stands anywhere in `text`.
pub fn has_text(text: &str, pattern: &str) -> (found: bool)
    ensures
        found == contains_text(text@, pattern@),
{
    let chars = chars_of(text);
    let wanted = chars_of(pattern);
    proof {
        lemma_find_from(text@, pattern@, 0);
    }
    find(&chars, &wanted, 0).is_some()
}

/// Whether `text` begins with `prefix`.
pub fn has_prefix(text: &str, prefix: &str) -> (found: bool)
    ensures
        found == prefix@.is_prefix_of(text@),
{
    let chars = chars_of(text);
    let wanted = chars_of(prefix);
    let found = stands_at(&chars, &wanted, 0);
    assert(found ==> prefix@.is_prefix_of(text@));
    assert(prefix@.is_prefix_of(text@) ==> text@.subrange(0, prefix@.len() as int) =~= prefix@);
    found
}

/// The value of the first entry under `key`.
pub open spec fn find_entry<V>(entries: Seq<(Seq<char>, V)>, key: Seq<char>) -> Option<V>
    decreases entries.len(),
{
    if entries.len() == 0 {
        None
    } else {
        match find_entry(entries.drop_last(), key) {
            Some(value) => Some(value),
            None => if entries.last().0 == key {
                Some(entries.last().1)
            } else {
                None
            },
        }
    }
}

/// An entry found in a prefix is the entry found in the whole.
pub proof fn lemma_find_entry_prefix<V>(entries: Seq<(Seq<char>, V)>, key: Seq<char>, n: int)
    requires
        0 <= n <= entries.len(),
        find_entry(entries.take(n), key) is Some,
    ensures
        find_entry(entries, key) == find_entry(entries.take(n), key),
    decreases entries.len() - n,
{
    if n < entries.len() {
        assert(entries.take(n + 1).drop_last() =~= entries.take(n));
        lemma_find_entry_prefix(entries, key, n + 1);
    } else {
        assert(entries.take(n) =~= entries);
    }
}

/// The decimal rendering of an integer, with a sign where it is negative.
pub open spec fn signed_decimal(n: int) -> Seq<char> {
    if n < 0 {
        seq!['-'] + decimal((-n) as nat)
    } else {
        decimal(n as nat)
    }
}

/// Render an integer in decimal.
pub fn signed_decimal_text(n: i64) -> (text: String)
    ensures
        text@ == signed_decimal(n as int),
{
    if n < 0 {
        let mut text = String::new();
        text.push('-');
        assert(text@ =~= seq!['-']);
        text.append(decimal_text((-(n as i128)) as u128).as_str());
        text
    } else {
        decimal_text(n as u128)
    }
}

/// The characters that Unicode counts as white space.
pub open spec fn is_space(c: char) -> bool {
    let n = c as u32;
    ||| 0x09 <= n <= 0x0d
    ||| n == 0x20
    ||| n == 0x85
    ||| n == 0xa0
    ||| n == 0x1680
    ||| 0x2000 <= n <= 0x200a
    ||| n == 0x2028
    ||| n == 0x2029
    ||| n == 0x202f
    ||| n == 0x205f
    ||| n == 0x3000
}

/// Whether a character is white space.
pub fn is_white(c: char) -> (white: bool)
    ensures
        white == is_space(c),
{
    let n: u32 = c as u32;
    (n >= 0x09 && n <= 0x0d) || n == 0x20 || n == 0x85 || n == 0xa0 || n == 0x1680 || (n >= 0x2000
        && n <= 0x200a) || n == 0x2028 || n == 0x2029 || n == 0x202f || n == 0x205f || n == 0x3000
}

/// The first position at or after `at` that holds no white space.
pub open spec fn space_end(s: Seq<char>, at: int) -> int
    decreases s.len() - at,
{
    if at >= s.len() || !is_space(s[at]) {
        at
    } else {
        space_end(s, at + 1)
    }
}

/// The first position at or after `at` that holds white space.
pub open spec fn word_end(s: Seq<char>, at: int) -> int
    decreases s.len() - at,
{
    if at >= s.len() || is_space(s[at]) {
        at
    } else {
        word_end(s, at + 1)
    }
}

/// The end of `s` without the white space it ends with, not before `from`.
pub open spec fn trimmed_end(s: Seq<char>, from: int, end: int) -> int
    decreases end - from,
{
    if end <= from || !is_space(s[end - 1]) {
        end
    } else {
        trimmed_end(s, from, end - 1)
    }
}

/// The part of `s` between `from` and `to` without white space around it.
pub open spec fn trimmed(s: Seq<char>, from: int, to: int) -> Seq<char> {
    let start = space_end(s.take(to), from);
    s.subrange(start, trimmed_end(s, start, to))
}

/// The 32-bit integer that a text spells in decimal, with an optional sign.
pub open spec fn i32_of(s: Seq<char>) -> Option<int> {
    let signed = s.len() > 0 && (s[0] == '-' || s[0] == '+');
    let digits = if signed {
        s.skip(1)
    } else {
        s
    };
    let value = if signed && s[0] == '-' {
        -(digits_value(digits) as int)
    } else {
        digits_value(digits) as int
    };
    if digits.len() > 0 && all_digits(digits) && i32::MIN <= value <= i32::MAX {
        Some(value)
    } else {
        None
    }
}

/// Read the 32-bit integer that the characters `from..to` spell.
pub fn parse_i32(chars: &Vec<char>, from: usize, to: usize) -> (value: Option<i32>)
    requires
        from <= to <= chars.len(),
    ensures
        match i32_of(chars@.subrange(from as int, to as int)) {
            Some(expected) => value matches Some(n) && n == expected,
            None => value is None,
        },
{
    let ghost s = chars@.subrange(from as int, to as int);
    if from == to {
        return None;
    }
    let negative: bool = chars[from] == '-';
    let signed: bool = negative || chars[from] == '+';
    let start: usize = if signed {
        from + 1
    } else {
        from
    };
    let ghost digits = if signed {
        s.skip(1)
    } else {
        s
    };
    assert(digits =~= chars@.subrange(start as int, to as int));
    let mut value: i64 = 0;
    let mut i: usize = start;
    let mut too_large: bool = false;
    assert(digits.take(0) =~= Seq::empty());
    while i < to
        invariant
            start <= i <= to <= chars.len(),
            digits == chars@.subrange(start as int, to as int),
            s == chars@.subrange(from as int, to as int),
            from < to,
            signed == (s[0] == '-' || s[0] == '+'),
            digits == (if signed {
                s.skip(1)
            } else {
                s
            }),
            0 <= value <= 0x8000_0000,
            all_digits(digits.take(i - start)),
            !too_large ==> value == digits_value(digits.take(i - start)),
            too_large ==> digits_value(digits.take(i - start)) > 0x8000_0000,
        decreases to - i,
    {
        let c = chars[i];
        assert(digits.take(i - start + 1).drop_last() =~= digits.take(i - start));
        assert(digits.take(i - start + 1).last() == c);
        if !(c >= '0' && c <= '9') {
            assert(!is_digit(digits[i - start]));
            return None;
        }
        assert forall|j: int| 0 <= j < i - start + 1 implies is_digit(
            #[trigger] digits.take(i - start + 1)[j],
        ) by {
            if j < i - start {
                assert(digits.take(i - start)[j] == digits[j]);
            }
        }
        if !too_large {
            value = value * 10 + (c as u32 - 48) as i64;
            if value > 0x8000_0000 {
                too_large = true;
                value = 0;
            }
        }
        i += 1;
    }
    assert(digits.take(to - start) =~= digits);
    assert(negative == (s[0] == '-'));
    if too_large || start == to {
        return None;
    }
    if negative {
        Some((-value) as i32)
    } else if value <= 0x7fff_ffff {
        Some(value as i32)
    } else {
        None
    }
}

/// A number is written digit by digit in base ten, without a zero in front.
pub proof fn law_decimal_is_base_ten(n: nat, d: nat)
    requires
        d < 10,
    ensures
        decimal(d).len() == 1,
        decimal(d)[0] as int == 48 + d,
        n > 0 ==> decimal(10 * n + d) == decimal(n) + decimal(d),
        n > 0 ==> decimal(n)[0] != '0',
    decreases n,
{
    if n > 0 {
        assert((10 * n + d) / 10 == n && (10 * n + d) % 10 == d);
        assert(decimal(n).push(digit_char(d as int)) =~= decimal(n) + decimal(d));
        if n >= 10 {
            law_decimal_is_base_ten(n / 10, 0);
            law_decimal_reads_back(n / 10);
            assert(decimal(n)[0] == decimal(n / 10)[0]);
        }
    }
}

/// An integer reads as what it was written for, with or without a plus sign; a text with
/// anything but digits behind its sign, or with none, does not read as one.
pub proof fn law_integers_read_back(n: i32, s: Seq<char>, i: int)
    ensures
        i32_of(signed_decimal(n as int)) == Some(n as int),
        n >= 0 ==> i32_of(seq!['+'] + decimal(n as nat)) == Some(n as int),
        1 <= i < s.len() && !('0' <= s[i] <= '9') ==> i32_of(s) is None,
        s.len() == 0 ==> i32_of(s) is None,
{
    let m: nat = if n < 0 {
        (-(n as int)) as nat
    } else {
        n as nat
    };
    law_decimal_reads_back(m);
    assert(is_digit(decimal(m)[0]));
    assert((seq!['-'] + decimal(m)).skip(1) =~= decimal(m));
    assert((seq!['+'] + decimal(m)).skip(1) =~= decimal(m));
    if 1 <= i < s.len() && !('0' <= s[i] <= '9') {
        assert(s.skip(1)[i - 1] == s[i]);
        assert(!is_digit(s[i]));
        assert(!all_digits(s.skip(1)));
        assert(!all_digits(s));
    }
}

proof fn lemma_spaces_end(s: Seq<char>, at: int, end: int)
    requires
        0 <= at <= end <= s.len(),
        forall|i: int| at <= i < end ==> is_space(#[trigger] s[i]),
        end < s.len() ==> !is_space(s[end]),
    ensures
        space_end(s, at) == end,
    decreases end - at,
{
    if at < end {
        assert(is_space(s[at]));
        lemma_spaces_end(s, at + 1, end);
    }
}

proof fn lemma_spaces_start(s: Seq<char>, from: int, start: int, end: int)
    requires
        0 <= from < start <= end <= s.len(),
        forall|i: int| start <= i < end ==> is_space(#[trigger] s[i]),
        !is_space(s[start - 1]),
    ensures
        trimmed_end(s, from, end) == start,
    decreases end - start,
{
    if start < end {
        assert(is_space(s[end - 1]));
        lemma_spaces_start(s, from, start, end - 1);
    }
}

/// Trimming takes the white space around a word, and nothing of the word.
pub proof fn law_trimming_keeps_the_word(before: Seq<char>, word: Seq<char>, after: Seq<char>)
    requires
        forall|i: int| 0 <= i < before.len() ==> is_space(#[trigger] before[i]),
        forall|i: int| 0 <= i < after.len() ==> is_space(#[trigger] after[i]),
        word.len() > 0,
        !is_space(word[0]) && !is_space(word.last()),
    ensures
        ({
            let s = before + word + after;
            trimmed(s, 0, s.len() as int) == word
        }),
{
    let s = before + word + after;
    let a = before.len() as int;
    let b = a + word.len();
    let whole = s.take(s.len() as int);
    assert(whole =~= s);
    assert forall|i: int| 0 <= i < a implies is_space(#[trigger] whole[i]) by {
        assert(whole[i] == before[i]);
    }
    assert forall|i: int| b <= i < s.len() implies is_space(#[trigger] s[i]) by {
        assert(s[i] == after[i - b]);
    }
    assert(whole[a] == word[0]);
    assert(s[b - 1] == word[word.len() - 1]);
    lemma_spaces_end(whole, 0, a);
    lemma_spaces_start(s, a, b, s.len() as int);
    assert(s.subrange(a, b) =~= word);
}

} // verus!
