//! Text as sequences of characters: case folding, trimming, searching and
//! rendering numbers.
//!
//! Every function here is stated over the character sequence of its argument,
//! so callers can reason about identifiers, codes and messages without looking
//! at their encoding.

use vstd::prelude::*;

verus! {

/// `String::push` appends one character to the end of the text.
pub assume_specification[ String::push ](text: &mut String, c: char)
    ensures
        final(text)@ == old(text)@.push(c),
;

/// The characters of a text, in order.
pub fn chars_of(text: &str) -> (chars: Vec<char>)
    ensures
        chars@ == text@,
{
    let mut chars: Vec<char> = Vec::new();
    for c in it: text.chars()
        invariant
            chars@ == it.seq().take(it.index() as int),
    {
        chars.push(c);
    }
    chars
}

/// A text made of the characters `from..to` of `chars`.
pub fn text_of(chars: &Vec<char>, from: usize, to: usize) -> (text: String)
    requires
        from <= to <= chars@.len(),
    ensures
        text@ == chars@.subrange(from as int, to as int),
{
    let mut text = String::new();
    let mut i: usize = from;
    while i < to
        invariant
            from <= i <= to <= chars@.len(),
            text@ == chars@.subrange(from as int, i as int),
        decreases to - i,
    {
        text.push(chars[i]);
        i += 1;
        assert(chars@.subrange(from as int, i as int).drop_last()
            =~= chars@.subrange(from as int, i - 1));
    }
    text
}

/// Whether two texts hold the same characters.
pub fn same_text(a: &str, b: &str) -> (same: bool)
    ensures
        same == (a@ == b@),
{
    a.to_owned() == b.to_owned()
}

/// The characters of an optional text.
pub open spec fn optional_text(text: Option<String>) -> Option<Seq<char>> {
    match text {
        Some(value) => Some(value@),
        None => None,
    }
}

/// Whether two optional texts are both absent, or present with the same characters.
pub fn same_optional_text(a: &Option<String>, b: &Option<String>) -> (same: bool)
    ensures
        same == (optional_text(*a) == optional_text(*b)),
{
    match (a, b) {
        (Some(left), Some(right)) => same_text(left, right),
        (None, None) => true,
        _ => false,
    }
}

/// Two texts, one after the other.
pub fn join(a: &str, b: &str) -> (text: String)
    ensures
        text@ == a@ + b@,
{
    let mut text = a.to_owned();
    text.append(b);
    text
}

/// Three texts, one after the other.
pub fn join3(a: &str, b: &str, c: &str) -> (text: String)
    ensures
        text@ == a@ + b@ + c@,
{
    let mut text = a.to_owned();
    text.append(b);
    text.append(c);
    text
}

/// An ASCII capital letter.
pub open spec fn is_ascii_upper(c: char) -> bool {
    'A' <= c <= 'Z'
}

/// An ASCII small letter.
pub open spec fn is_ascii_lower(c: char) -> bool {
    'a' <= c <= 'z'
}

/// An ASCII letter.
pub open spec fn is_ascii_letter(c: char) -> bool {
    is_ascii_upper(c) || is_ascii_lower(c)
}

/// An ASCII decimal digit.
pub open spec fn is_ascii_digit(c: char) -> bool {
    '0' <= c <= '9'
}

/// The small form of an ASCII capital letter; any other character is itself.
pub open spec fn lower_char(c: char) -> char {
    if is_ascii_upper(c) {
        ((c as int) + 32) as char
    } else {
        c
    }
}

/// The capital form of an ASCII small letter; any other character is itself.
pub open spec fn upper_char(c: char) -> char {
    if is_ascii_lower(c) {
        ((c as int) - 32) as char
    } else {
        c
    }
}

/// A text with its ASCII letters made small.
pub open spec fn lower(text: Seq<char>) -> Seq<char> {
    text.map_values(|c: char| lower_char(c))
}

/// A text with its ASCII letters made capital.
pub open spec fn upper(text: Seq<char>) -> Seq<char> {
    text.map_values(|c: char| upper_char(c))
}

/// Two texts that differ at most in the case of their ASCII letters.
pub open spec fn same_ignoring_case(a: Seq<char>, b: Seq<char>) -> bool {
    lower(a) == lower(b)
}

fn to_lower_char(c: char) -> (folded: char)
    ensures
        folded == lower_char(c),
{
    if 'A' <= c && c <= 'Z' {
        ((c as u8) + 32) as char
    } else {
        c
    }
}

/// The capital form of an ASCII letter; other characters stay.
pub fn to_upper_char(c: char) -> (folded: char)
    ensures
        folded == upper_char(c),
{
    if 'a' <= c && c <= 'z' {
        ((c as u8) - 32) as char
    } else {
        c
    }
}

/// Make the ASCII letters of a text small.
pub fn to_lower(text: &str) -> (folded: String)
    ensures
        folded@ == lower(text@),
{
    let chars = chars_of(text);
    let mut folded = String::new();
    let mut i: usize = 0;
    while i < chars.len()
        invariant
            i <= chars@.len(),
            chars@ == text@,
            folded@ == lower(text@.take(i as int)),
        decreases chars@.len() - i,
    {
        folded.push(to_lower_char(chars[i]));
        i += 1;
        assert(lower(text@.take(i as int)) =~= lower(text@.take(i - 1)).push(
            lower_char(text@[i - 1]),
        ));
    }
    assert(text@.take(i as int) =~= text@);
    folded
}

/// Make the ASCII letters of a text capital.
pub fn to_upper(text: &str) -> (folded: String)
    ensures
        folded@ == upper(text@),
{
    let chars = chars_of(text);
    let mut folded = String::new();
    let mut i: usize = 0;
    while i < chars.len()
        invariant
            i <= chars@.len(),
            chars@ == text@,
            folded@ == upper(text@.take(i as int)),
        decreases chars@.len() - i,
    {
        folded.push(to_upper_char(chars[i]));
        i += 1;
        assert(upper(text@.take(i as int)) =~= upper(text@.take(i - 1)).push(
            upper_char(text@[i - 1]),
        ));
    }
    assert(text@.take(i as int) =~= text@);
    folded
}

/// Whether two texts differ at most in the case of their ASCII letters.
pub fn equal_ignoring_case(a: &str, b: &str) -> (same: bool)
    ensures
        same == same_ignoring_case(a@, b@),
{
    to_lower(a) == to_lower(b)
}

/// A character with the Unicode `White_Space` property.
pub open spec fn is_white(c: char) -> bool {
    ||| 0x9 <= c as int <= 0xd
    ||| c as int == 0x20
    ||| c as int == 0x85
    ||| c as int == 0xa0
    ||| c as int == 0x1680
    ||| 0x2000 <= c as int <= 0x200a
    ||| 0x2028 <= c as int <= 0x2029
    ||| c as int == 0x202f
    ||| c as int == 0x205f
    ||| c as int == 0x3000
}

fn check_white(c: char) -> (white: bool)
    ensures
        white == is_white(c),
{
    let code: u32 = c as u32;
    (0x9 <= code && code <= 0xd) || code == 0x20 || code == 0x85 || code == 0xa0 || code == 0x1680
        || (0x2000 <= code && code <= 0x200a) || (0x2028 <= code && code <= 0x2029) || code
        == 0x202f || code == 0x205f || code == 0x3000
}

/// A text without its leading white space.
pub open spec fn trim_start(text: Seq<char>) -> Seq<char>
    decreases text.len(),
{
    if text.len() > 0 && is_white(text[0]) {
        trim_start(text.drop_first())
    } else {
        text
    }
}

/// A text without its trailing white space.
pub open spec fn trim_end(text: Seq<char>) -> Seq<char>
    decreases text.len(),
{
    if text.len() > 0 && is_white(text.last()) {
        trim_end(text.drop_last())
    } else {
        text
    }
}

/// A text without the white space at either end.
pub open spec fn trimmed(text: Seq<char>) -> Seq<char> {
    trim_end(trim_start(text))
}

/// Remove the white space at either end.
pub fn trim(text: &str) -> (inner: String)
    ensures
        inner@ == trimmed(text@),
{
    let chars = chars_of(text);
    assert(chars@.skip(0) =~= chars@);
    let mut from: usize = 0;
    while from < chars.len() && check_white(chars[from])
        invariant
            from <= chars@.len(),
            chars@ == text@,
            trim_start(text@) == trim_start(chars@.skip(from as int)),
        ensures
            from < chars@.len() ==> !is_white(chars@[from as int]),
        decreases chars@.len() - from,
    {
        assert(chars@.skip(from as int).drop_first() =~= chars@.skip(from + 1));
        from += 1;
    }
    let ghost kept = chars@.skip(from as int);
    let mut to: usize = chars.len();
    assert(chars@.subrange(from as int, to as int) =~= kept);
    while to > from && check_white(chars[to - 1])
        invariant
            from <= to <= chars@.len(),
            trim_end(kept) == trim_end(chars@.subrange(from as int, to as int)),
        ensures
            to > from ==> !is_white(chars@[to - 1]),
        decreases to - from,
    {
        assert(chars@.subrange(from as int, to as int).drop_last() =~= chars@.subrange(
            from as int,
            to - 1,
        ));
        to -= 1;
    }
    text_of(&chars, from, to)
}

/// Trimming leaves a text alone when neither of its ends is white space.
pub proof fn lemma_trimmed_is_identity(text: Seq<char>)
    requires
        text.len() > 0 ==> !is_white(text[0]) && !is_white(text.last()),
    ensures
        trimmed(text) == text,
{
}

/// Where `mark` first occurs in `text`, or its length when it does not.
pub open spec fn first_index(text: Seq<char>, mark: char) -> int
    decreases text.len(),
{
    if text.len() == 0 || text[0] == mark {
        0
    } else {
        1 + first_index(text.drop_first(), mark)
    }
}

/// The first index is in range, holds the mark, and nothing before it does.
pub proof fn lemma_first_index(text: Seq<char>, mark: char)
    ensures
        0 <= first_index(text, mark) <= text.len(),
        first_index(text, mark) < text.len() ==> text[first_index(text, mark)] == mark,
        forall|i: int| 0 <= i < first_index(text, mark) ==> text[i] != mark,
    decreases text.len(),
{
    if text.len() > 0 && text[0] != mark {
        lemma_first_index(text.drop_first(), mark);
        let n = first_index(text.drop_first(), mark);
        assert forall|i: int| 0 <= i < first_index(text, mark) implies text[i] != mark by {
            if i > 0 {
                assert(text.drop_first()[i - 1] == text[i]);
            }
        }
    }
}

/// The first index is the only one that holds the mark with none before it.
pub proof fn lemma_first_index_is(text: Seq<char>, mark: char, at: int)
    requires
        0 <= at <= text.len(),
        at < text.len() ==> text[at] == mark,
        forall|i: int| 0 <= i < at ==> text[i] != mark,
    ensures
        first_index(text, mark) == at,
{
    lemma_first_index(text, mark);
    let n = first_index(text, mark);
    if n < at {
        assert(text[n] != mark);
    }
    if at < n {
        assert(text[at] != mark);
    }
}

/// Where `mark` first occurs, or the length when it does not.
pub fn find_char(chars: &Vec<char>, mark: char) -> (at: usize)
    ensures
        at == first_index(chars@, mark),
        at <= chars@.len(),
{
    let mut at: usize = 0;
    while at < chars.len() && chars[at] != mark
        invariant
            at <= chars@.len(),
            forall|i: int| 0 <= i < at ==> chars@[i] != mark,
        ensures
            at < chars@.len() ==> chars@[at as int] == mark,
        decreases chars@.len() - at,
    {
        at += 1;
    }
    proof {
        lemma_first_index_is(chars@, mark, at as int);
    }
    at
}

/// The pieces of a text between marks.
pub open spec fn pieces(text: Seq<char>, mark: char) -> Seq<Seq<char>>
    decreases text.len(),
{
    let at = first_index(text, mark);
    if 0 <= at < text.len() {
        seq![text.take(at)] + pieces(text.skip(at + 1), mark)
    } else {
        seq![text]
    }
}

/// The characters of a list of lists.
pub open spec fn piece_views(list: Seq<Vec<char>>) -> Seq<Seq<char>> {
    list.map_values(|piece: Vec<char>| piece@)
}

/// The characters `from..to` of a list.
pub fn slice_of(chars: &Vec<char>, from: usize, to: usize) -> (part: Vec<char>)
    requires
        from <= to <= chars@.len(),
    ensures
        part@ == chars@.subrange(from as int, to as int),
{
    let mut part: Vec<char> = Vec::new();
    let mut i: usize = from;
    while i < to
        invariant
            from <= i <= to <= chars@.len(),
            part@ == chars@.subrange(from as int, i as int),
        decreases to - i,
    {
        part.push(chars[i]);
        i += 1;
        assert(part@ =~= chars@.subrange(from as int, i as int));
    }
    part
}

/// Split a text at every mark.
pub fn split_on(chars: &Vec<char>, mark: char) -> (list: Vec<Vec<char>>)
    ensures
        piece_views(list@) == pieces(chars@, mark),
{
    let ghost whole = pieces(chars@, mark);
    let mut list: Vec<Vec<char>> = Vec::new();
    let mut from: usize = 0;
    let mut at: usize = 0;
    assert(chars@.skip(0) =~= chars@);
    assert(piece_views(list@) + pieces(chars@.skip(0), mark) =~= whole);
    while at < chars.len()
        invariant
            from <= at <= chars@.len(),
            forall|i: int| from <= i < at ==> chars@[i] != mark,
            piece_views(list@) + pieces(chars@.skip(from as int), mark) == whole,
        decreases chars@.len() - at,
    {
        if chars[at] == mark {
            let ghost rest = chars@.skip(from as int);
            let ghost before = piece_views(list@);
            proof {
                lemma_first_index_is(rest, mark, at - from);
            }
            let piece = slice_of(chars, from, at);
            assert(piece@ =~= rest.take(at - from));
            list.push(piece);
            assert(piece_views(list@) =~= before.push(rest.take(at - from)));
            assert(rest.skip(at - from + 1) =~= chars@.skip(at + 1));
            from = at + 1;
            assert(piece_views(list@) + pieces(chars@.skip(from as int), mark) =~= before + pieces(
                rest,
                mark,
            ));
        }
        at += 1;
    }
    let ghost rest = chars@.skip(from as int);
    let ghost before = piece_views(list@);
    proof {
        lemma_first_index_is(rest, mark, rest.len() as int);
    }
    let piece = slice_of(chars, from, chars.len());
    assert(piece@ =~= rest);
    list.push(piece);
    assert(piece_views(list@) =~= before + pieces(rest, mark));
    list
}

/// Whether `part` occurs somewhere inside `text`.
pub open spec fn occurs_in(part: Seq<char>, text: Seq<char>) -> bool {
    exists|at: int|
        0 <= at && at + part.len() <= text.len() && #[trigger] text.subrange(at, at + part.len())
            == part
}

fn occurs_at(part: &Vec<char>, text: &Vec<char>, at: usize) -> (found: bool)
    requires
        at + part@.len() <= text@.len(),
    ensures
        found == (text@.subrange(at as int, at + part@.len()) == part@),
{
    let size: usize = text.len();
    let mut i: usize = 0;
    while i < part.len()
        invariant
            i <= part@.len(),
            at + part@.len() <= size,
            size == text@.len(),
            forall|j: int| 0 <= j < i ==> text@[at + j] == part@[j],
        decreases part@.len() - i,
    {
        if text[at + i] != part[i] {
            assert(text@.subrange(at as int, at + part@.len())[i as int] != part@[i as int]);
            return false;
        }
        i += 1;
    }
    assert(text@.subrange(at as int, at + part@.len()) =~= part@);
    true
}

/// Whether `part` occurs somewhere inside `text`.
pub fn contains_text(text: &str, part: &str) -> (found: bool)
    ensures
        found == occurs_in(part@, text@),
{
    let inner = chars_of(part);
    let outer = chars_of(text);
    if inner.len() > outer.len() {
        return false;
    }
    let last: usize = outer.len() - inner.len();
    let mut at: usize = 0;
    while at <= last
        invariant
            inner@ == part@,
            outer@ == text@,
            last + inner@.len() == outer@.len(),
            at <= last + 1,
            forall|i: int|
                0 <= i < at ==> #[trigger] outer@.subrange(i, i + inner@.len()) != inner@,
        decreases last + 1 - at,
    {
        if occurs_at(&inner, &outer, at) {
            return true;
        }
        if at == last {
            return false;
        }
        at += 1;
    }
    false
}

/// A small hexadecimal digit for a number below sixteen.
pub open spec fn hex_char(n: nat) -> char {
    if n < 10 {
        (n + 48) as char
    } else {
        (n + 87) as char
    }
}

/// The digit for a number below ten.
pub open spec fn digit_char(n: nat) -> char {
    (n + 48) as char
}

/// The decimal digits of a number, most significant first.
pub open spec fn digits(n: nat) -> Seq<char>
    decreases n,
{
    if n < 10 {
        seq![digit_char(n)]
    } else {
        digits(n / 10).push(digit_char(n % 10))
    }
}

/// An integer in decimal, with a leading minus sign when it is negative.
pub open spec fn integer_text(n: int) -> Seq<char> {
    if n < 0 {
        seq!['-'] + digits((-n) as nat)
    } else {
        digits(n as nat)
    }
}

/// The number that a sequence of decimal digits stands for.
pub open spec fn number_of(text: Seq<char>) -> nat
    decreases text.len(),
{
    if text.len() == 0 {
        0
    } else {
        number_of(text.drop_last()) * 10 + (text.last() as int - 48) as nat
    }
}

/// A text made of decimal digits alone.
pub open spec fn all_digits(text: Seq<char>) -> bool {
    forall|i: int| 0 <= i < text.len() ==> is_ascii_digit(#[trigger] text[i])
}

/// The digits of a number stand for that number.
pub proof fn lemma_digits(n: nat)
    ensures
        digits(n).len() > 0,
        all_digits(digits(n)),
        number_of(digits(n)) == n,
    decreases n,
{
    if n < 10 {
        assert(digits(n).drop_last() =~= Seq::<char>::empty());
        assert(number_of(digits(n).drop_last()) == 0);
        assert((n + 48) as char as int == n + 48);
    } else {
        lemma_digits(n / 10);
        let rest = digits(n / 10);
        assert(digits(n).drop_last() =~= rest);
        assert((n % 10 + 48) as char as int == n % 10 + 48);
        assert forall|i: int| 0 <= i < digits(n).len() implies is_ascii_digit(
            #[trigger] digits(n)[i],
        ) by {
            if i < rest.len() {
                assert(digits(n)[i] == rest[i]);
            }
        }
    }
}

/// Append the decimal digits of a number.
pub fn push_digits(text: &mut String, n: u64)
    ensures
        final(text)@ == old(text)@ + digits(n as nat),
    decreases n,
{
    if n >= 10 {
        push_digits(text, n / 10);
    }
    let digit: u8 = (n % 10) as u8;
    text.push((digit + 48) as char);
    proof {
        if n < 10 {
            assert(text@ =~= old(text)@ + digits(n as nat));
        } else {
            assert(text@ =~= old(text)@ + digits(n as nat / 10).push(digit_char(n as nat % 10)));
        }
    }
}

/// An unsigned number in decimal.
pub fn unsigned_to_text(n: u64) -> (text: String)
    ensures
        text@ == digits(n as nat),
{
    let mut text = String::new();
    push_digits(&mut text, n);
    assert(text@ =~= digits(n as nat));
    text
}

/// The magnitude of a signed number.
pub fn magnitude(n: i64) -> (size: u64)
    ensures
        size == if n < 0 {
            -n
        } else {
            n as int
        },
{
    if n < 0 {
        ((-(n + 1)) as u64) + 1
    } else {
        n as u64
    }
}

/// A signed number in decimal.
pub fn signed_to_text(n: i64) -> (text: String)
    ensures
        text@ == integer_text(n as int),
{
    let mut text = String::new();
    if n < 0 {
        text.push('-');
    }
    push_digits(&mut text, magnitude(n));
    assert(text@ =~= integer_text(n as int));
    text
}

/// The number that decimal digits stand for, or `None` when it exceeds `limit`.
pub fn parse_digits(chars: &Vec<char>, limit: u64) -> (number: Option<u64>)
    requires
        all_digits(chars@),
        limit <= i64::MAX,
    ensures
        number_of(chars@) <= limit ==> number == Some(number_of(chars@) as u64),
        number_of(chars@) > limit ==> number is None,
{
    let mut value: u64 = 0;
    let mut i: usize = 0;
    while i < chars.len()
        invariant
            all_digits(chars@),
            limit <= i64::MAX,
            i <= chars@.len(),
            value == number_of(chars@.take(i as int)),
            value <= limit,
        decreases chars@.len() - i,
    {
        assert(is_ascii_digit(chars@[i as int]));
        let digit: u64 = (chars[i] as u8 - 48) as u64;
        assert(chars@.take(i + 1).drop_last() =~= chars@.take(i as int));
        let next: u64 = value as u64;
        proof {
            lemma_number_grows(chars@, i + 1);
        }
        if next > limit / 10 || next * 10 + digit > limit {
            return None;
        }
        value = next * 10 + digit;
        i += 1;
    }
    assert(chars@.take(i as int) =~= chars@);
    Some(value)
}

/// A longer run of digits never stands for a smaller number.
proof fn lemma_number_grows(text: Seq<char>, upto: int)
    requires
        all_digits(text),
        0 <= upto <= text.len(),
    ensures
        number_of(text.take(upto)) <= number_of(text),
    decreases text.len(),
{
    if upto < text.len() {
        lemma_number_grows(text.drop_last(), upto);
        assert(text.drop_last().take(upto) =~= text.take(upto));
        assert(is_ascii_digit(text.last()));
    } else {
        assert(text.take(upto) =~= text);
    }
}

/// The integer that a text stands for: an optional sign and at least one decimal digit.
pub open spec fn integer_of(text: Seq<char>) -> Option<int> {
    let signed = text.len() > 0 && (text[0] == '-' || text[0] == '+');
    let number = if signed {
        text.skip(1)
    } else {
        text
    };
    if number.len() == 0 || !all_digits(number) {
        None
    } else if signed && text[0] == '-' {
        Some(-(number_of(number) as int))
    } else {
        Some(number_of(number) as int)
    }
}

/// The integer that a text stands for, when it fits.
pub open spec fn signed_of(text: Seq<char>) -> Option<i64> {
    match integer_of(text) {
        Some(value) => if i64::MIN <= value <= i64::MAX {
            Some(value as i64)
        } else {
            None
        },
        None => None,
    }
}

/// Read a signed number in decimal.
pub fn parse_signed(chars: &Vec<char>) -> (number: Option<i64>)
    ensures
        number == signed_of(chars@),
{
    if chars.len() == 0 {
        return None;
    }
    let negative = chars[0] == '-';
    let from: usize = if negative || chars[0] == '+' {
        1
    } else {
        0
    };
    let ghost body = chars@.skip(from as int);
    assert(from == 0 ==> body =~= chars@);
    if chars.len() == from {
        return None;
    }
    // The magnitude of the smallest number does not fit, so negative numbers are
    // gathered below zero.
    let mut value: i64 = 0;
    let mut i: usize = from;
    assert(body.take(0) =~= Seq::<char>::empty());
    let mut fits = true;
    while i < chars.len()
        invariant
            from <= i <= chars@.len(),
            from <= 1,
            chars@.len() > from,
            negative == (chars@[0] == '-'),
            (from == 1) == (chars@[0] == '-' || chars@[0] == '+'),
            body == chars@.skip(from as int),
            from == 0 ==> body == chars@,
            all_digits(body.take(i - from)),
            fits ==> value == if negative {
                -(number_of(body.take(i - from)) as int)
            } else {
                number_of(body.take(i - from)) as int
            },
            !fits ==> number_of(body.take(i - from)) > if negative {
                -(i64::MIN as int)
            } else {
                i64::MAX as int
            },
        decreases chars@.len() - i,
    {
        let c = chars[i];
        let ghost seen = body.take(i - from);
        let ghost next = body.take(i + 1 - from);
        assert(next.drop_last() =~= seen);
        assert(next.last() == c);
        assert(body[i - from] == c);
        if !('0' <= c && c <= '9') {
            assert(!is_ascii_digit(body[i - from]));
            assert(!all_digits(body));
            return None;
        }
        let digit: i64 = (c as u8 - 48) as i64;
        if fits {
            let step: Option<i64> = match value.checked_mul(10) {
                Some(scaled) => if negative {
                    scaled.checked_sub(digit)
                } else {
                    scaled.checked_add(digit)
                },
                None => None,
            };
            match step {
                Some(sum) => {
                    value = sum;
                },
                None => {
                    fits = false;
                },
            }
        }
        assert forall|k: int| 0 <= k < next.len() implies is_ascii_digit(#[trigger] next[k]) by {
            if k < seen.len() {
                assert(next[k] == seen[k]);
            }
        }
        i += 1;
    }
    assert(body.take(i - from) =~= body);
    if fits {
        Some(value)
    } else {
        None
    }
}

/// What is white space alone.
pub open spec fn all_white(text: Seq<char>) -> bool {
    forall|i: int| 0 <= i < text.len() ==> is_white(#[trigger] text[i])
}

proof fn lemma_trim_start_splits(text: Seq<char>) -> (head: Seq<char>)
    ensures
        text == head + trim_start(text),
        all_white(head),
        trim_start(text).len() > 0 ==> !is_white(trim_start(text)[0]),
    decreases text.len(),
{
    if text.len() > 0 && is_white(text[0]) {
        let rest = lemma_trim_start_splits(text.drop_first());
        let head = seq![text[0]] + rest;
        assert(text =~= seq![text[0]] + text.drop_first());
        assert(text =~= head + trim_start(text));
        head
    } else {
        assert(text =~= Seq::<char>::empty() + text);
        Seq::empty()
    }
}

proof fn lemma_trim_end_splits(text: Seq<char>) -> (tail: Seq<char>)
    ensures
        text == trim_end(text) + tail,
        all_white(tail),
        trim_end(text).len() > 0 ==> !is_white(trim_end(text).last()),
    decreases text.len(),
{
    if text.len() > 0 && is_white(text.last()) {
        let rest = lemma_trim_end_splits(text.drop_last());
        let tail = rest.push(text.last());
        assert(text =~= text.drop_last().push(text.last()));
        assert(text =~= trim_end(text) + tail);
        tail
    } else {
        assert(text =~= text + Seq::<char>::empty());
        Seq::empty()
    }
}

/// Trimming takes white space off both ends, all of it and nothing else.
pub proof fn law_trimming_takes_white_space_alone(text: Seq<char>)
    ensures
        exists|head: Seq<char>, tail: Seq<char>|
            #![trigger all_white(head), all_white(tail)]
            all_white(head) && all_white(tail) && text == head + trimmed(text) + tail,
        trimmed(text).len() > 0 ==> !is_white(trimmed(text)[0]) && !is_white(
            trimmed(text).last(),
        ),
{
    let head = lemma_trim_start_splits(text);
    let tail = lemma_trim_end_splits(trim_start(text));
    assert(all_white(head) && all_white(tail));
    assert(text =~= head + trimmed(text) + tail);
    if trimmed(text).len() > 0 {
        assert(trim_start(text)[0] == trimmed(text)[0]);
    }
}

/// Letters change only in case: a text made small has no capital letter and is the same text
/// when made capital, and the other way round.
pub proof fn law_letters_change_in_case_alone(text: Seq<char>, i: int)
    requires
        0 <= i < text.len(),
    ensures
        lower(text).len() == text.len(),
        upper(text).len() == text.len(),
        !is_ascii_upper(lower(text)[i]),
        !is_ascii_lower(upper(text)[i]),
        !is_ascii_upper(text[i]) ==> lower(text)[i] == text[i],
        !is_ascii_lower(text[i]) ==> upper(text)[i] == text[i],
        is_ascii_upper(text[i]) ==> upper(lower(text))[i] == text[i],
        is_ascii_lower(text[i]) ==> lower(upper(text))[i] == text[i],
        is_ascii_upper(text[i]) ==> lower(text)[i] as int - 97 == text[i] as int - 65,
        is_ascii_lower(text[i]) ==> upper(text)[i] as int - 65 == text[i] as int - 97,
{
}

/// An integer is read back from its decimal text.
pub proof fn law_integers_are_read_back(n: int)
    ensures
        integer_of(integer_text(n)) == Some(n),
{
    if n < 0 {
        lemma_digits((-n) as nat);
        assert(integer_text(n).skip(1) =~= digits((-n) as nat));
    } else {
        lemma_digits(n as nat);
        assert(is_ascii_digit(digits(n as nat)[0]));
    }
}

} // verus!
