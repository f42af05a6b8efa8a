//! Text as sequences of characters: what trimming, searching, splitting and
//! reading a number mean, and executable functions that do them on string slices.
//!
//! Every executable function here states its result over the view of its
//! arguments, a `Seq<char>`, so callers reason about characters and never about
//! bytes.

use vstd::prelude::*;

verus! {

/// Whether `c` is Unicode white space.
pub open spec fn is_white_space(c: char) -> bool {
    let n = c as u32;
    ||| 0x09 <= n <= 0x0D
    ||| n == 0x20
    ||| n == 0x85
    ||| n == 0xA0
    ||| n == 0x1680
    ||| 0x2000 <= n <= 0x200A
    ||| n == 0x2028
    ||| n == 0x2029
    ||| n == 0x202F
    ||| n == 0x205F
    ||| n == 0x3000
}

/// How many characters of white space `text` starts with.
pub open spec fn leading_white_space(text: Seq<char>) -> nat
    decreases text.len(),
{
    if text.len() > 0 && is_white_space(text[0]) {
        1 + leading_white_space(text.drop_first())
    } else {
        0
    }
}

/// How many characters of white space `text` ends with.
pub open spec fn trailing_white_space(text: Seq<char>) -> nat
    decreases text.len(),
{
    if text.len() > 0 && is_white_space(text.last()) {
        1 + trailing_white_space(text.drop_last())
    } else {
        0
    }
}

/// `text` without the white space at its two ends.
pub open spec fn trimmed(text: Seq<char>) -> Seq<char> {
    let rest = text.skip(leading_white_space(text) as int);
    rest.take(rest.len() - trailing_white_space(rest))
}

/// Whether `pattern` stands in `text` at position `at`.
pub open spec fn occurs_at(text: Seq<char>, pattern: Seq<char>, at: int) -> bool {
    &&& 0 <= at
    &&& at + pattern.len() <= text.len()
    &&& text.subrange(at, at + pattern.len()) == pattern
}

/// Whether `at` is the leftmost position at which `pattern` stands in `text`.
pub open spec fn is_first_occurrence(text: Seq<char>, pattern: Seq<char>, at: int) -> bool {
    &&& occurs_at(text, pattern, at)
    &&& forall|earlier: int| 0 <= earlier < at ==> !occurs_at(text, pattern, earlier)
}

/// The leftmost position at which `pattern` stands in `text`, if it stands anywhere.
pub open spec fn first_occurrence(text: Seq<char>, pattern: Seq<char>) -> Option<int> {
    if exists|at: int| occurs_at(text, pattern, at) {
        Some(choose|at: int| is_first_occurrence(text, pattern, at))
    } else {
        None
    }
}

/// Whether `pattern` stands somewhere in `text`.
pub open spec fn holds(text: Seq<char>, pattern: Seq<char>) -> bool {
    exists|at: int| occurs_at(text, pattern, at)
}

/// The first of the pieces into which `separator` splits `text`: what stands
/// before the leftmost `separator`, or all of `text` where there is none. An
/// empty separator splits nothing.
pub open spec fn first_piece(text: Seq<char>, separator: Seq<char>) -> Seq<char> {
    let first = first_occurrence(text, separator);
    if separator.len() > 0 && first is Some {
        text.take(first->0)
    } else {
        text
    }
}

/// The last of the pieces into which `separator` splits `text`, where the
/// separators are found from the left and do not overlap: what is left once
/// every separator, leftmost first, has been cut away with all before it. An
/// empty separator splits nothing.
pub open spec fn last_piece(text: Seq<char>, separator: Seq<char>) -> Seq<char>
    decreases text.len(),
{
    let first = first_occurrence(text, separator);
    if separator.len() > 0 && first is Some && occurs_at(text, separator, first->0) {
        last_piece(text.skip(first->0 + separator.len()), separator)
    } else {
        text
    }
}

/// Whether `c` is one of the ten decimal digits.
pub open spec fn is_digit(c: char) -> bool {
    0x30 <= c as u32 <= 0x39
}

/// The number that the digit `c` stands for.
pub open spec fn digit_value(c: char) -> nat {
    (c as u32 - 0x30) as nat
}

/// Whether `text` holds decimal digits and nothing else.
pub open spec fn all_digits(text: Seq<char>) -> bool {
    forall|i: int| 0 <= i < text.len() ==> is_digit(#[trigger] text[i])
}

/// The number that the decimal digits `digits` write.
pub open spec fn decimal_value(digits: Seq<char>) -> nat
    decreases digits.len(),
{
    if digits.len() == 0 {
        0
    } else {
        decimal_value(digits.drop_last()) * 10 + digit_value(digits.last())
    }
}

/// The digits of an unsigned number written as `text`: `text` itself, or what
/// follows one leading `+`.
pub open spec fn unsigned_digits(text: Seq<char>) -> Seq<char> {
    if text.len() > 0 && text[0] == '+' {
        text.drop_first()
    } else {
        text
    }
}

/// The number that `text` writes, where it writes one that fits 32 bits: an
/// optional `+`, then one or more decimal digits.
pub open spec fn number_u32(text: Seq<char>) -> Option<u32> {
    let digits = unsigned_digits(text);
    if digits.len() > 0 && all_digits(digits) && decimal_value(digits) <= u32::MAX {
        Some(decimal_value(digits) as u32)
    } else {
        None
    }
}

/// A position before which all is white space, and which is the end of
/// `text` or no white space itself, is the count of leading white space.
pub proof fn lemma_leading_white_space(text: Seq<char>, count: int)
    requires
        0 <= count <= text.len(),
        forall|i: int| 0 <= i < count ==> is_white_space(#[trigger] text[i]),
        count == text.len() || !is_white_space(text[count]),
    ensures
        leading_white_space(text) == count,
    decreases count,
{
    if count > 0 {
        let rest = text.drop_first();
        assert forall|i: int| 0 <= i < count - 1 implies is_white_space(#[trigger] rest[i]) by {
            assert(rest[i] == text[i + 1]);
        }
        lemma_leading_white_space(rest, count - 1);
    }
}

/// The mirror image of `lemma_leading_white_space`, for the end of `text`.
pub proof fn lemma_trailing_white_space(text: Seq<char>, count: int)
    requires
        0 <= count <= text.len(),
        forall|i: int| text.len() - count <= i < text.len() ==> is_white_space(#[trigger] text[i]),
        count == text.len() || !is_white_space(text[text.len() - count - 1]),
    ensures
        trailing_white_space(text) == count,
    decreases count,
{
    if count > 0 {
        let rest = text.drop_last();
        assert forall|i: int| rest.len() - (count - 1) <= i < rest.len() implies is_white_space(
            #[trigger] rest[i],
        ) by {
            assert(rest[i] == text[i]);
        }
        lemma_trailing_white_space(rest, count - 1);
    }
}

/// The leading white space is white space, and what follows it is not.
pub proof fn lemma_leading_white_space_ends(text: Seq<char>)
    ensures
        leading_white_space(text) <= text.len(),
        forall|i: int| 0 <= i < leading_white_space(text) ==> is_white_space(#[trigger] text[i]),
        leading_white_space(text) < text.len() ==> !is_white_space(
            text[leading_white_space(text) as int],
        ),
    decreases text.len(),
{
    if text.len() > 0 && is_white_space(text[0]) {
        let rest = text.drop_first();
        lemma_leading_white_space_ends(rest);
        assert forall|i: int| 0 <= i < leading_white_space(text) implies is_white_space(
            #[trigger] text[i],
        ) by {
            if i > 0 {
                assert(text[i] == rest[i - 1]);
            }
        }
        if leading_white_space(text) < text.len() {
            assert(text[leading_white_space(text) as int] == rest[leading_white_space(rest) as int]);
        }
    }
}

/// The trailing white space is white space, and what stands before it is not.
pub proof fn lemma_trailing_white_space_ends(text: Seq<char>)
    ensures
        trailing_white_space(text) <= text.len(),
        forall|i: int|
            text.len() - trailing_white_space(text) <= i < text.len() ==> is_white_space(
                #[trigger] text[i],
            ),
        trailing_white_space(text) < text.len() ==> !is_white_space(
            text[text.len() - trailing_white_space(text) - 1],
        ),
    decreases text.len(),
{
    if text.len() > 0 && is_white_space(text.last()) {
        let rest = text.drop_last();
        lemma_trailing_white_space_ends(rest);
        assert forall|i: int|
            text.len() - trailing_white_space(text) <= i < text.len() implies is_white_space(
            #[trigger] text[i],
        ) by {
            if i < text.len() - 1 {
                assert(text[i] == rest[i]);
            }
        }
        if trailing_white_space(text) < text.len() {
            assert(text[text.len() - trailing_white_space(text) - 1] == rest[rest.len()
                - trailing_white_space(rest) - 1]);
        }
    }
}

/// What trimming means: the trimmed text is the stretch of `text` from its
/// first character that is no white space to its last one, and nothing where
/// all of `text` is white space.
pub proof fn lemma_trimmed(text: Seq<char>) -> (ends: (int, int))
    ensures
        0 <= ends.0 <= ends.1 <= text.len(),
        trimmed(text) == text.subrange(ends.0, ends.1),
        forall|i: int| 0 <= i < ends.0 ==> is_white_space(#[trigger] text[i]),
        forall|i: int| ends.1 <= i < text.len() ==> is_white_space(#[trigger] text[i]),
        ends.0 < ends.1 ==> !is_white_space(text[ends.0]) && !is_white_space(text[ends.1 - 1]),
{
    lemma_leading_white_space_ends(text);
    let from = leading_white_space(text) as int;
    let rest = text.skip(from);
    lemma_trailing_white_space_ends(rest);
    let to = text.len() - trailing_white_space(rest);
    assert(rest.take(rest.len() - trailing_white_space(rest)) == text.subrange(from, to));
    assert forall|i: int| to <= i < text.len() implies is_white_space(#[trigger] text[i]) by {
        assert(text[i] == rest[i - from]);
    }
    if from < to {
        assert(rest[0] == text[from]);
        assert(rest[rest.len() - trailing_white_space(rest) - 1] == text[to - 1]);
    }
    (from, to)
}

/// A leftmost occurrence is the first occurrence.
pub proof fn lemma_first_occurrence(text: Seq<char>, pattern: Seq<char>, at: int)
    requires
        is_first_occurrence(text, pattern, at),
    ensures
        first_occurrence(text, pattern) == Some(at),
{
    let chosen = choose|at: int| is_first_occurrence(text, pattern, at);
    assert(is_first_occurrence(text, pattern, chosen));
    if chosen < at {
        assert(!occurs_at(text, pattern, chosen));
    }
    if at < chosen {
        assert(!occurs_at(text, pattern, at));
    }
}

/// Where `pattern` stands in `text` at all, its first occurrence is one.
pub proof fn lemma_first_occurrence_occurs(text: Seq<char>, pattern: Seq<char>)
    requires
        first_occurrence(text, pattern) is Some,
    ensures
        is_first_occurrence(text, pattern, first_occurrence(text, pattern)->0),
{
    let some = choose|at: int| occurs_at(text, pattern, at);
    lemma_leftmost_occurrence(text, pattern, some);
}

/// Before any occurrence, or at it, stands a leftmost one.
pub proof fn lemma_leftmost_occurrence(text: Seq<char>, pattern: Seq<char>, at: int)
    requires
        occurs_at(text, pattern, at),
    ensures
        exists|first: int| is_first_occurrence(text, pattern, first),
    decreases at,
{
    if exists|earlier: int| 0 <= earlier < at && occurs_at(text, pattern, earlier) {
        let earlier = choose|earlier: int| 0 <= earlier < at && occurs_at(text, pattern, earlier);
        lemma_leftmost_occurrence(text, pattern, earlier);
    } else {
        assert(is_first_occurrence(text, pattern, at));
    }
}

/// The digits read so far weigh no more than all of them: a longer prefix
/// writes a number at least as large.
pub proof fn lemma_decimal_value_of_prefix(digits: Seq<char>, length: int)
    requires
        0 <= length <= digits.len(),
    ensures
        decimal_value(digits.take(length)) <= decimal_value(digits),
    decreases digits.len() - length,
{
    if length < digits.len() {
        let longer = digits.take(length + 1);
        assert(longer.drop_last() == digits.take(length));
        lemma_decimal_value_of_prefix(digits, length + 1);
    } else {
        assert(digits.take(length) == digits);
    }
}

/// Tells white space from other characters.
pub fn char_is_white_space(c: char) -> (white: bool)
    ensures
        white == is_white_space(c),
{
    let n: u32 = c as u32;
    (0x09 <= n && n <= 0x0D) || n == 0x20 || n == 0x85 || n == 0xA0 || n == 0x1680 || (0x2000 <= n
        && n <= 0x200A) || n == 0x2028 || n == 0x2029 || n == 0x202F || n == 0x205F || n == 0x3000
}

/// The characters of `text`, in order.
pub fn chars_of(text: &str) -> (chars: Vec<char>)
    ensures
        chars@ == text@,
{
    let mut chars: Vec<char> = Vec::new();
    for c in it: text.chars()
        invariant
            it.seq() == text@,
            chars@ == it.seq().take(it.index() as int),
    {
        chars.push(c);
    }
    chars
}

/// Whether `chars` spells `word`.
pub fn spells(chars: &Vec<char>, word: &str) -> (same: bool)
    ensures
        same == (chars@ == word@),
{
    let wanted = chars_of(word);
    if chars.len() != wanted.len() {
        return false;
    }
    let mut i: usize = 0;
    while i < chars.len()
        invariant
            wanted@ == word@,
            chars.len() == wanted.len(),
            i <= chars.len(),
            chars@.take(i as int) == wanted@.take(i as int),
        decreases chars.len() - i,
    {
        if chars[i] != wanted[i] {
            assert(chars@[i as int] != word@[i as int]);
            return false;
        }
        assert(chars@.take(i + 1) == chars@.take(i as int).push(chars@[i as int]));
        assert(wanted@.take(i + 1) == wanted@.take(i as int).push(wanted@[i as int]));
        i += 1;
    }
    assert(chars@ == chars@.take(i as int));
    assert(wanted@ == wanted@.take(i as int));
    true
}

/// Whether two texts hold the same characters.
pub fn same_text(left: &str, right: &str) -> (same: bool)
    ensures
        same == (left@ == right@),
{
    let chars = chars_of(left);
    spells(&chars, right)
}

/// Cuts the white space off both ends of `text`.
pub fn trim(text: &str) -> (inner: &str)
    ensures
        inner@ == trimmed(text@),
{
    let chars = chars_of(text);
    let n = chars.len();
    let mut from: usize = 0;
    while from < n && char_is_white_space(chars[from])
        invariant
            from <= n == chars.len(),
            forall|i: int| 0 <= i < from ==> is_white_space(#[trigger] chars@[i]),
        decreases n - from,
    {
        from += 1;
    }
    let mut to: usize = n;
    while to > from && char_is_white_space(chars[to - 1])
        invariant
            from <= to <= n == chars.len(),
            forall|i: int| to <= i < n ==> is_white_space(#[trigger] chars@[i]),
        decreases to,
    {
        to -= 1;
    }
    proof {
        lemma_leading_white_space(chars@, from as int);
        let rest = chars@.skip(from as int);
        assert forall|i: int| rest.len() - (n - to) <= i < rest.len() implies is_white_space(
            #[trigger] rest[i],
        ) by {
            assert(rest[i] == chars@[i + from]);
        }
        lemma_trailing_white_space(rest, n - to);
        assert(rest.take(rest.len() - (n - to)) == chars@.subrange(from as int, to as int));
    }
    text.substring_char(from, to)
}

/// Whether `pattern` stands in `text` at position `at`.
fn stands_at(text: &Vec<char>, pattern: &Vec<char>, at: usize) -> (stands: bool)
    requires
        at + pattern.len() <= text.len(),
    ensures
        stands == occurs_at(text@, pattern@, at as int),
{
    let mut k: usize = 0;
    while k < pattern.len()
        invariant
            at + pattern.len() <= text.len(),
            k <= pattern.len(),
            text@.subrange(at as int, at + k) == pattern@.take(k as int),
        decreases pattern.len() - k,
    {
        if text[at + k] != pattern[k] {
            assert(text@.subrange(at as int, at + pattern.len())[k as int] != pattern@[k as int]);
            return false;
        }
        assert(text@.subrange(at as int, at + k + 1) == text@.subrange(at as int, at + k).push(
            text@[at + k],
        ));
        assert(pattern@.take(k + 1) == pattern@.take(k as int).push(pattern@[k as int]));
        k += 1;
    }
    assert(pattern@ == pattern@.take(k as int));
    true
}

/// The leftmost position at or after `from` at which `pattern` stands in `text`.
fn find_from(text: &Vec<char>, pattern: &Vec<char>, from: usize) -> (found: Option<usize>)
    requires
        from <= text.len(),
    ensures
        match found {
            Some(at) => from <= at && is_first_occurrence(
                text@.skip(from as int),
                pattern@,
                at - from,
            ),
            None => !holds(text@.skip(from as int), pattern@),
        },
{
    let ghost rest = text@.skip(from as int);
    if text.len() - from < pattern.len() {
        return None;
    }
    let last: usize = text.len() - pattern.len();
    let mut at: usize = from;
    loop
        invariant
            from <= at <= last,
            last == text.len() - pattern.len(),
            rest == text@.skip(from as int),
            forall|earlier: int| 0 <= earlier < at - from ==> !occurs_at(rest, pattern@, earlier),
        decreases last - at,
    {
        let stands = stands_at(text, pattern, at);
        assert(rest.subrange(at - from, at - from + pattern.len()) == text@.subrange(
            at as int,
            at + pattern.len(),
        ));
        if stands {
            return Some(at);
        }
        if at == last {
            return None;
        }
        at += 1;
    }
}

/// Finds the leftmost position at which `pattern` stands in `text`, counted in
/// characters.
pub fn find(text: &str, pattern: &str) -> (found: Option<usize>)
    ensures
        match found {
            Some(at) => first_occurrence(text@, pattern@) == Some(at as int),
            None => first_occurrence(text@, pattern@) is None,
        },
{
    let chars = chars_of(text);
    let wanted = chars_of(pattern);
    let found = find_from(&chars, &wanted, 0);
    proof {
        assert(chars@.skip(0) == text@);
        if let Some(at) = found {
            lemma_first_occurrence(text@, pattern@, at as int);
        }
    }
    found
}

/// Whether `pattern` stands somewhere in `text`.
pub fn contains(text: &str, pattern: &str) -> (found: bool)
    ensures
        found == holds(text@, pattern@),
{
    find(text, pattern).is_some()
}

/// Takes the first of the pieces into which `separator` splits `text`.
pub fn take_first_piece<'a>(text: &'a str, separator: &str) -> (piece: &'a str)
    ensures
        piece@ == first_piece(text@, separator@),
{
    if separator.is_empty() {
        return text;
    }
    match find(text, separator) {
        Some(at) => {
            assert(occurs_at(text@, separator@, at as int)) by {
                lemma_first_occurrence_occurs(text@, separator@);
            }
            text.substring_char(0, at)
        },
        None => text,
    }
}

/// Takes the last of the pieces into which `separator` splits `text`.
pub fn take_last_piece<'a>(text: &'a str, separator: &str) -> (piece: &'a str)
    ensures
        piece@ == last_piece(text@, separator@),
{
    let chars = chars_of(text);
    let wanted = chars_of(separator);
    if wanted.len() == 0 {
        return text;
    }
    let mut from: usize = 0;
    assert(text@.skip(0) == text@);
    loop
        invariant
            chars@ == text@,
            wanted@ == separator@,
            wanted.len() > 0,
            from <= chars.len(),
            last_piece(text@, separator@) == last_piece(text@.skip(from as int), separator@),
        decreases chars.len() - from,
    {
        match find_from(&chars, &wanted, from) {
            Some(at) => {
                proof {
                    let rest = text@.skip(from as int);
                    lemma_first_occurrence(rest, separator@, at - from);
                    assert(rest.skip(at - from + wanted.len()) == text@.skip(at + wanted.len()));
                }
                from = at + wanted.len();
            },
            None => {
                assert(text@.skip(from as int) == text@.subrange(from as int, chars.len() as int));
                return text.substring_char(from, chars.len());
            },
        }
    }
}

/// Reads `text` as an unsigned number of 32 bits.
pub fn parse_u32(text: &str) -> (number: Option<u32>)
    ensures
        number == number_u32(text@),
{
    let chars = chars_of(text);
    let n = chars.len();
    let start: usize = if n > 0 && chars[0] == '+' {
        1
    } else {
        0
    };
    let ghost digits = unsigned_digits(text@);
    assert(digits == chars@.skip(start as int));
    if start == n {
        return None;
    }
    let mut value: u32 = 0;
    let mut i: usize = start;
    while i < n
        invariant
            chars@ == text@,
            digits == unsigned_digits(text@),
            digits == chars@.skip(start as int),
            start <= i <= n == chars.len(),
            start < n,
            all_digits(digits.take(i - start)),
            value == decimal_value(digits.take(i - start)),
        decreases n - i,
    {
        let c = chars[i];
        let code: u32 = c as u32;
        let ghost seen = digits.take(i - start + 1);
        assert(seen.drop_last() == digits.take(i - start));
        assert(seen.last() == c);
        if code < 0x30 || code > 0x39 {
            assert(!is_digit(digits[i - start]));
            return None;
        }
        proof {
            lemma_decimal_value_of_prefix(digits, i - start + 1);
        }
        let digit: u32 = code - 0x30;
        if value > (u32::MAX - digit) / 10 {
            return None;
        }
        value = value * 10 + digit;
        i += 1;
    }
    assert(digits.take(n - start) == digits);
    Some(value)
}

} // verus!
