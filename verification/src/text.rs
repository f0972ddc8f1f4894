//! Character sequences: searching, trimming, decimal numbers and lenient UTF-8 decoding.

use vstd::prelude::*;
use vstd::utf8::*;

verus! {

/// `part` occurs somewhere in `whole`, as consecutive characters.
pub open spec fn occurs_in(part: Seq<char>, whole: Seq<char>) -> bool {
    exists|at: int| #[trigger] occurs_at(part, whole, at)
}

/// `part` occurs in `whole` and its first character is number `at` there.
pub open spec fn occurs_at(part: Seq<char>, whole: Seq<char>, at: int) -> bool {
    &&& 0 <= at <= whole.len() - part.len()
    &&& whole.subrange(at, at + part.len()) == part
}

/// `text` begins with `prefix`.
pub open spec fn begins_with(text: Seq<char>, prefix: Seq<char>) -> bool {
    prefix.len() <= text.len() && text.take(prefix.len() as int) == prefix
}

/// The characters with the Unicode property `White_Space`.
pub open spec fn is_white_space(c: char) -> bool {
    let code = c as u32;
    ||| 0x9 <= code <= 0xd
    ||| code == 0x20
    ||| code == 0x85
    ||| code == 0xa0
    ||| code == 0x1680
    ||| 0x2000 <= code <= 0x200a
    ||| code == 0x2028
    ||| code == 0x2029
    ||| code == 0x202f
    ||| code == 0x205f
    ||| code == 0x3000
}

/// `text` without the white space at its beginning and at its end.
pub open spec fn trimmed(text: Seq<char>) -> Seq<char>
    decreases text.len(),
{
    if text.len() == 0 {
        text
    } else if is_white_space(text[0]) {
        trimmed(text.drop_first())
    } else if is_white_space(text.last()) {
        trimmed(text.drop_last())
    } else {
        text
    }
}

pub open spec fn is_digit(c: char) -> bool {
    '0' <= c <= '9'
}

/// Every character of `text` is one of the ten ASCII digits.
pub open spec fn all_digits(text: Seq<char>) -> bool {
    forall|i: int| 0 <= i < text.len() ==> is_digit(#[trigger] text[i])
}

/// The number that a sequence of digits denotes in base ten.
pub open spec fn digits_value(digits: Seq<char>) -> nat
    decreases digits.len(),
{
    if digits.len() == 0 {
        0
    } else {
        digits_value(digits.drop_last()) * 10 + (digits.last() as nat - '0' as nat) as nat
    }
}

/// `text` without one leading plus sign, if it has one.
pub open spec fn without_plus(text: Seq<char>) -> Seq<char> {
    if text.len() > 0 && text[0] == '+' {
        text.drop_first()
    } else {
        text
    }
}

/// The `usize` that `text` writes in base ten: at least one digit, at most one plus sign before
/// them, nothing else, and a value that fits.
pub open spec fn parsed_usize(text: Seq<char>) -> Option<usize> {
    let digits = without_plus(text);
    if digits.len() > 0 && all_digits(digits) && digits_value(digits) <= usize::MAX {
        Some(digits_value(digits) as usize)
    } else {
        None
    }
}

pub open spec fn digit_char(d: nat) -> char {
    ('0' as nat + d) as char
}

/// `n` written in base ten, without leading zeros.
pub open spec fn decimal(n: nat) -> Seq<char>
    decreases n,
{
    if n < 10 {
        seq![digit_char(n)]
    } else {
        decimal(n / 10).push(digit_char(n % 10))
    }
}

/// The length of the longest beginning of `bytes` that is valid UTF-8.
pub open spec fn valid_up_to(bytes: Seq<u8>) -> nat
    decreases bytes.len(),
{
    if bytes.len() == 0 || valid_utf8(bytes) {
        bytes.len()
    } else {
        valid_up_to(bytes.drop_last())
    }
}

/// The text that lenient UTF-8 decoding makes of bytes that begin with a broken character.
pub uninterp spec fn repaired_text(bytes: Seq<u8>) -> Seq<char>;

/// The text that lenient UTF-8 decoding makes of `bytes`: the encoded text up to the first broken
/// character, and from there on a repaired one.
pub open spec fn lenient_text(bytes: Seq<u8>) -> Seq<char> {
    if valid_utf8(bytes) {
        decode_utf8(bytes)
    } else {
        let good = valid_up_to(bytes) as int;
        decode_utf8(bytes.take(good)) + repaired_text(bytes.skip(good))
    }
}

/// `String::from_utf8_lossy`, as an owned string. It replaces invalid sequences and nothing else:
/// bytes that are valid UTF-8 are decoded as they stand, and so is the longest valid beginning of
/// other bytes. Of what follows, from the first broken character on, only this is claimed, that
/// its text depends on those bytes alone; how many replacement characters stand for an invalid
/// sequence is left unsaid.
#[verifier::external_body]
pub(crate) fn decode_lossy(bytes: &[u8]) -> (text: String)
    ensures
        valid_utf8(bytes@) ==> text@ == decode_utf8(bytes@),
        !valid_utf8(bytes@) ==> text@ == decode_utf8(bytes@.take(valid_up_to(bytes@) as int))
            + repaired_text(bytes@.skip(valid_up_to(bytes@) as int)),
{
    String::from_utf8_lossy(bytes).into_owned()
}

/// `String::push` appends one character and changes nothing else.
pub assume_specification[ String::push ](text: &mut String, c: char)
    ensures
        final(text)@ == old(text)@.push(c),
;

/// The characters of `text`, in order.
pub fn chars_of(text: &str) -> (chars: Vec<char>)
    ensures
        chars@ == text@,
{
    let mut chars: Vec<char> = Vec::new();
    for c in it: text.chars()
        invariant
            it.seq() == text@,
            chars@ == text@.take(it.index()),
    {
        chars.push(c);
    }
    chars
}

/// The string made of `chars`, in order.
pub fn string_of(chars: &[char]) -> (text: String)
    ensures
        text@ == chars@,
{
    let mut text: String = String::new();
    let mut i: usize = 0;
    while i < chars.len()
        invariant
            i <= chars@.len(),
            text@ == chars@.take(i as int),
        decreases chars@.len() - i,
    {
        text.push(chars[i]);
        i = i + 1;
    }
    text
}

/// Whether `part` stands in `whole` with its first character at `at`.
fn occurs_here(part: &[char], whole: &[char], at: usize) -> (found: bool)
    requires
        at + part@.len() <= whole@.len(),
    ensures
        found == occurs_at(part@, whole@, at as int),
{
    let mut i: usize = 0;
    while i < part.len()
        invariant
            i <= part@.len(),
            at + part@.len() <= whole@.len(),
            forall|j: int| 0 <= j < i ==> part@[j] == whole@[at + j],
        decreases part@.len() - i,
    {
        assert(at + i < whole.len());
        if part[i] != whole[at + i] {
            proof {
                let window = whole@.subrange(at as int, at + part@.len());
                assert(window[i as int] != part@[i as int]);
            }
            return false;
        }
        i = i + 1;
    }
    assert(whole@.subrange(at as int, at + part@.len()) =~= part@);
    true
}

/// Whether `part` occurs in `whole`.
pub fn contains_text(whole: &str, part: &str) -> (found: bool)
    ensures
        found == occurs_in(part@, whole@),
{
    let hay = chars_of(whole);
    let needle = chars_of(part);
    if needle.len() > hay.len() {
        return false;
    }
    let last: usize = hay.len() - needle.len();
    let mut at: usize = 0;
    while at <= last
        invariant
            hay@ == whole@,
            needle@ == part@,
            last == hay@.len() - needle@.len(),
            at <= last + 1,
            forall|j: int| 0 <= j < at ==> !occurs_at(part@, whole@, j),
        decreases last + 1 - at,
    {
        if occurs_here(needle.as_slice(), hay.as_slice(), at) {
            return true;
        }
        if at == last {
            return false;
        }
        at = at + 1;
    }
    false
}

/// Whether `chars` begins with `prefix`.
pub fn begins_with_chars(chars: &[char], prefix: &str) -> (found: bool)
    ensures
        found == begins_with(chars@, prefix@),
{
    let prefix_chars = chars_of(prefix);
    if prefix_chars.len() > chars.len() {
        return false;
    }
    proof {
        assert(chars@.take(prefix@.len() as int) == chars@.subrange(0, prefix@.len() as int));
    }
    occurs_here(prefix_chars.as_slice(), chars, 0)
}

/// A prefix of a sequence of digits denotes at most what the whole does.
proof fn lemma_digits_value_prefix(digits: Seq<char>, end: int)
    requires
        0 <= end <= digits.len(),
    ensures
        digits_value(digits.take(end)) <= digits_value(digits),
    decreases digits.len() - end,
{
    if end == digits.len() {
        assert(digits.take(end) =~= digits);
    } else {
        lemma_digits_value_prefix(digits, end + 1);
        assert(digits.take(end + 1).drop_last() =~= digits.take(end));
    }
}

/// The part of `chars` that is left when the white space at both ends is taken away.
pub fn trim_chars(chars: &[char]) -> (inner: &[char])
    ensures
        inner@ == trimmed(chars@),
{
    let mut start: usize = 0;
    let mut end: usize = chars.len();
    assert(chars@.subrange(0, end as int) =~= chars@);
    while start < end && white_space(chars[start])
        invariant
            start <= end == chars@.len(),
            trimmed(chars@) == trimmed(chars@.subrange(start as int, end as int)),
        decreases end - start,
    {
        proof {
            let rest = chars@.subrange(start as int, end as int);
            assert(rest.drop_first() =~= chars@.subrange(start + 1, end as int));
        }
        start = start + 1;
    }
    while start < end && white_space(chars[end - 1])
        invariant
            start <= end <= chars@.len(),
            start < end ==> !is_white_space(chars@[start as int]),
            trimmed(chars@) == trimmed(chars@.subrange(start as int, end as int)),
        decreases end - start,
    {
        proof {
            let rest = chars@.subrange(start as int, end as int);
            assert(rest.drop_last() =~= chars@.subrange(start as int, end - 1));
        }
        end = end - 1;
    }
    vstd::slice::slice_subrange(chars, start, end)
}

/// Whether `c` is white space.
pub fn white_space(c: char) -> (answer: bool)
    ensures
        answer == is_white_space(c),
{
    let code: u32 = c as u32;
    (0x9 <= code && code <= 0xd) || code == 0x20 || code == 0x85 || code == 0xa0 || code == 0x1680
        || (0x2000 <= code && code <= 0x200a) || code == 0x2028 || code == 0x2029 || code == 0x202f
        || code == 0x205f || code == 0x3000
}

/// The number that `chars` writes in base ten, if it is one that a `usize` holds.
pub fn parse_usize(chars: &[char]) -> (number: Option<usize>)
    ensures
        number == parsed_usize(chars@),
{
    let start: usize = if chars.len() > 0 && chars[0] == '+' {
        1
    } else {
        0
    };
    let ghost digits = without_plus(chars@);
    assert(digits =~= chars@.skip(start as int));
    if chars.len() == start {
        return None;
    }
    let mut value: usize = 0;
    let mut i: usize = start;
    while i < chars.len()
        invariant
            start <= i <= chars@.len(),
            digits == without_plus(chars@),
            digits == chars@.skip(start as int),
            all_digits(digits.take(i - start)),
            value == digits_value(digits.take(i - start)),
        decreases chars@.len() - i,
    {
        let c: char = chars[i];
        assert(digits[i - start] == c);
        if c < '0' || '9' < c {
            assert(!is_digit(digits[i - start]));
            return None;
        }
        let digit: usize = (c as u32 - '0' as u32) as usize;
        proof {
            let longer = digits.take(i - start + 1);
            assert(longer.drop_last() =~= digits.take(i - start));
            assert(digits_value(longer) == value * 10 + digit);
            lemma_digits_value_prefix(digits, i - start + 1);
        }
        match value.checked_mul(10) {
            None => {
                return None;
            },
            Some(shifted) => {
                match shifted.checked_add(digit) {
                    None => {
                        return None;
                    },
                    Some(next) => {
                        value = next;
                    },
                }
            },
        }
        i = i + 1;
    }
    assert(digits.take(digits.len() as int) =~= digits);
    Some(value)
}

/// `n` in base ten.
pub fn decimal_of(n: usize) -> (text: String)
    ensures
        text@ == decimal(n as nat),
    decreases n,
{
    let digit: char = ascii_digit(n % 10);
    if n < 10 {
        let mut text = String::new();
        text.push(digit);
        text
    } else {
        let mut text = decimal_of(n / 10);
        text.push(digit);
        text
    }
}

/// The ASCII digit for a number below ten.
fn ascii_digit(d: usize) -> (c: char)
    requires
        d < 10,
    ensures
        c == digit_char(d as nat),
{
    ('0' as u8 + d as u8) as char
}

/// The base ten digits of a number denote that number.
pub proof fn lemma_decimal_denotes(n: nat)
    ensures
        all_digits(decimal(n)),
        decimal(n).len() > 0,
        digits_value(decimal(n)) == n,
    decreases n,
{
    assert(digit_char(n % 10) as nat == '0' as nat + n % 10);
    if n < 10 {
        assert(decimal(n).drop_last() =~= Seq::<char>::empty());
        reveal_with_fuel(digits_value, 2);
    } else {
        lemma_decimal_denotes(n / 10);
        assert(decimal(n).drop_last() =~= decimal(n / 10));
    }
}

/// Reading back a number that was written in base ten gives that number.
pub proof fn lemma_decimal_parses(n: usize)
    ensures
        parsed_usize(decimal(n as nat)) == Some(n),
{
    lemma_decimal_denotes(n as nat);
    assert(is_digit(decimal(n as nat)[0]));
}

/// UTF-8 encoding goes character by character.
pub proof fn lemma_encode_concat(a: Seq<char>, b: Seq<char>)
    ensures
        encode_utf8(a + b) == encode_utf8(a) + encode_utf8(b),
    decreases a.len(),
{
    if a.len() == 0 {
        assert(a + b =~= b);
    } else {
        lemma_encode_concat(a.drop_first(), b);
        assert((a + b).drop_first() =~= a.drop_first() + b);
        assert(encode_utf8(a + b) =~= encode_utf8(a) + encode_utf8(b));
    }
}

/// What follows a valid beginning of valid UTF-8 is valid UTF-8.
proof fn lemma_valid_rest(first: Seq<u8>, rest: Seq<u8>)
    requires
        valid_utf8(first),
    ensures
        valid_utf8(first + rest) == valid_utf8(rest),
    decreases first.len(),
{
    if first.len() == 0 {
        assert(first + rest =~= rest);
    } else {
        let shorter = pop_first_scalar(first);
        assert(shorter.len() < first.len());
        lemma_valid_rest(shorter, rest);
        assert(pop_first_scalar(first + rest) =~= shorter + rest);
    }
}

/// The longest valid beginning is valid, and lies within the bytes.
proof fn lemma_valid_up_to(bytes: Seq<u8>)
    ensures
        valid_up_to(bytes) <= bytes.len(),
        valid_utf8(bytes.take(valid_up_to(bytes) as int)),
    decreases bytes.len(),
{
    if bytes.len() == 0 || valid_utf8(bytes) {
        assert(bytes.take(bytes.len() as int) =~= bytes);
    } else {
        let shorter = bytes.drop_last();
        lemma_valid_up_to(shorter);
        assert(bytes.take(valid_up_to(bytes) as int) =~= shorter.take(valid_up_to(bytes) as int));
    }
}

/// A valid beginning is part of the longest one.
proof fn lemma_valid_up_to_concat(first: Seq<u8>, rest: Seq<u8>)
    requires
        valid_utf8(first),
    ensures
        valid_up_to(first + rest) == first.len() + valid_up_to(rest),
    decreases rest.len(),
{
    lemma_valid_rest(first, rest);
    if rest.len() == 0 {
        assert(first + rest =~= first);
    } else {
        lemma_valid_up_to_concat(first, rest.drop_last());
        assert((first + rest).drop_last() =~= first + rest.drop_last());
    }
}

/// The text of two valid parts is the text of the first and then that of the second.
proof fn lemma_decode_concat(first: Seq<u8>, rest: Seq<u8>)
    requires
        valid_utf8(first),
        valid_utf8(rest),
    ensures
        decode_utf8(first + rest) == decode_utf8(first) + decode_utf8(rest),
{
    let text = decode_utf8(first) + decode_utf8(rest);
    decode_utf8_encode_utf8(first);
    decode_utf8_encode_utf8(rest);
    lemma_encode_concat(decode_utf8(first), decode_utf8(rest));
    encode_utf8_decode_utf8(text);
}

/// Lenient decoding keeps a valid beginning as it is, and decodes what follows as it would decode
/// that alone.
pub proof fn law_valid_beginning_is_kept(first: Seq<u8>, rest: Seq<u8>)
    requires
        valid_utf8(first),
    ensures
        lenient_text(first + rest) == decode_utf8(first) + lenient_text(rest),
{
    lemma_valid_rest(first, rest);
    if valid_utf8(rest) {
        lemma_decode_concat(first, rest);
    } else {
        let whole = first + rest;
        let good = valid_up_to(rest) as int;
        lemma_valid_up_to(rest);
        lemma_valid_up_to_concat(first, rest);
        assert(whole.take(first.len() + good) =~= first + rest.take(good));
        assert(whole.skip(first.len() + good) =~= rest.skip(good));
        lemma_decode_concat(first, rest.take(good));
        assert(lenient_text(whole) =~= decode_utf8(first) + lenient_text(rest));
    }
}

/// A part occurs in a text if and only if the text is that part with something before and
/// something behind it.
pub proof fn law_parts_occur(part: Seq<char>, whole: Seq<char>)
    ensures
        occurs_in(part, whole) <==> exists|before: Seq<char>, after: Seq<char>|
            whole == #[trigger] (before + part + after),
{
    if occurs_in(part, whole) {
        let at = choose|at: int| #[trigger] occurs_at(part, whole, at);
        let before = whole.take(at);
        let after = whole.skip(at + part.len());
        assert(whole =~= before + part + after);
    }
    if exists|before: Seq<char>, after: Seq<char>| whole == #[trigger] (before + part + after) {
        let (before, after) = choose|before: Seq<char>, after: Seq<char>|
            whole == #[trigger] (before + part + after);
        let at = before.len() as int;
        assert(whole.subrange(at, at + part.len()) =~= part);
        assert(occurs_at(part, whole, at));
    }
}

/// A text begins with a prefix if and only if it is that prefix with something behind it.
pub proof fn law_prefixes_begin(text: Seq<char>, prefix: Seq<char>)
    ensures
        begins_with(text, prefix) <==> exists|rest: Seq<char>| text == #[trigger] (prefix + rest),
{
    if begins_with(text, prefix) {
        assert(text =~= prefix + text.skip(prefix.len() as int));
    }
    if exists|rest: Seq<char>| text == #[trigger] (prefix + rest) {
        assert(text.take(prefix.len() as int) =~= prefix);
    }
}

/// Trimming takes away the white space at both ends of a text, all of it and nothing else.
pub proof fn law_white_space_is_trimmed(before: Seq<char>, inner: Seq<char>, after: Seq<char>)
    requires
        forall|i: int| 0 <= i < before.len() ==> is_white_space(#[trigger] before[i]),
        forall|i: int| 0 <= i < after.len() ==> is_white_space(#[trigger] after[i]),
        inner.len() > 0 ==> !is_white_space(inner[0]) && !is_white_space(inner.last()),
    ensures
        trimmed(before + inner + after) == inner,
    decreases before.len() + after.len(),
{
    let text = before + inner + after;
    if before.len() > 0 {
        let shorter = before.drop_first();
        assert forall|i: int| 0 <= i < shorter.len() implies is_white_space(
            #[trigger] shorter[i],
        ) by {
            assert(shorter[i] == before[i + 1]);
        }
        law_white_space_is_trimmed(shorter, inner, after);
        assert(text[0] == before[0]);
        assert(text.drop_first() =~= shorter + inner + after);
    } else if after.len() > 0 {
        let shorter = after.drop_last();
        assert forall|i: int| 0 <= i < shorter.len() implies is_white_space(
            #[trigger] shorter[i],
        ) by {
            assert(shorter[i] == after[i]);
        }
        law_white_space_is_trimmed(before, inner, shorter);
        assert(text.last() == after.last());
        assert(text.drop_last() =~= before + inner + shorter);
        if inner.len() > 0 {
            assert(text[0] == inner[0]);
        } else {
            // All of it is white space, from whichever end it is taken away.
            let rest = after.drop_first();
            assert(text =~= after);
            assert forall|i: int| 0 <= i < rest.len() implies is_white_space(
                #[trigger] rest[i],
            ) by {
                assert(rest[i] == after[i + 1]);
            }
            law_white_space_is_trimmed(before, inner, rest);
            assert(before + inner + rest =~= text.drop_first());
            assert(text[0] == after[0]);
        }
    } else {
        assert(text =~= inner);
    }
}

/// A further digit multiplies what the digits before it denote by ten, and adds its own value. No
/// digits denote zero.
pub proof fn law_digits_denote_by_place(digits: Seq<char>, digit: u8)
    requires
        digit < 10,
    ensures
        digits_value(Seq::<char>::empty()) == 0,
        digits_value(digits.push((0x30u8 + digit) as char)) == 10 * digits_value(digits) + digit,
{
    let c = (0x30u8 + digit) as char;
    assert(c as nat == 0x30 + digit);
    assert(digits.push(c).drop_last() =~= digits);
}

/// Digits without a needless zero in front are the ones in which the number that they denote is
/// written.
pub proof fn law_decimal_is_the_shortest(digits: Seq<char>)
    requires
        digits.len() > 0,
        forall|i: int| 0 <= i < digits.len() ==> '0' <= #[trigger] digits[i] <= '9',
        digits[0] == '0' ==> digits.len() == 1,
    ensures
        decimal(digits_value(digits)) == digits,
        digits[0] != '0' ==> digits_value(digits) > 0,
    decreases digits.len(),
{
    let n = digits_value(digits);
    let shorter = digits.drop_last();
    let last = (digits.last() as nat - '0' as nat) as nat;
    assert('0' <= digits[digits.len() - 1] <= '9');
    assert(n == digits_value(shorter) * 10 + last);
    assert(digit_char(last) == digits.last());
    if shorter.len() == 0 {
        assert(digits_value(shorter) == 0);
        assert(digits =~= seq![digits.last()]);
    } else {
        assert forall|i: int| 0 <= i < shorter.len() implies '0' <= #[trigger] shorter[i]
            <= '9' by {
            assert(shorter[i] == digits[i]);
        }
        assert(shorter[0] == digits[0]);
        law_decimal_is_the_shortest(shorter);
        assert(n >= 10);
        assert(n / 10 == digits_value(shorter) && n % 10 == last);
        assert(digits =~= shorter.push(digits.last()));
    }
}

/// Digits are read as the number that they denote, with or without a plus sign in front, where a
/// `usize` holds it; where none does, they are no number.
pub proof fn law_digits_are_read(digits: Seq<char>)
    requires
        digits.len() > 0,
        forall|i: int| 0 <= i < digits.len() ==> '0' <= #[trigger] digits[i] <= '9',
    ensures
        digits_value(digits) <= usize::MAX ==> {
            &&& parsed_usize(digits) == Some(digits_value(digits) as usize)
            &&& parsed_usize(seq!['+'] + digits) == Some(digits_value(digits) as usize)
        },
        digits_value(digits) > usize::MAX ==> {
            &&& parsed_usize(digits) is None
            &&& parsed_usize(seq!['+'] + digits) is None
        },
{
    assert('0' <= digits[0] <= '9');
    assert((seq!['+'] + digits).drop_first() =~= digits);
}

/// A text with anything but digits, or without any, is no number; one plus sign may stand in front.
pub proof fn law_other_text_is_no_number(text: Seq<char>, at: int)
    requires
        ({
            ||| text.len() == 0
            ||| text =~= seq!['+']
            ||| 0 <= at < text.len() && !('0' <= text[at] <= '9') && !(at == 0 && text[at] == '+')
        }),
    ensures
        parsed_usize(text) is None,
{
    let digits = without_plus(text);
    if text.len() > 0 && !(text =~= seq!['+']) {
        if text[0] == '+' {
            assert(digits[at - 1] == text[at]);
            assert(!is_digit(digits[at - 1]));
        } else {
            assert(!is_digit(digits[at]));
        }
    }
}

/// What is valid UTF-8 is decoded to the text that it encodes. From a broken character on, the
/// text is the one that lenient decoding makes of the bytes from there on.
pub proof fn law_lenient_decoding(text: Seq<char>, broken: Seq<u8>)
    requires
        broken.len() > 0,
        forall|n: int| 0 < n <= broken.len() ==> !valid_utf8(#[trigger] broken.take(n)),
    ensures
        lenient_text(encode_utf8(text)) == text,
        lenient_text(encode_utf8(text) + broken) == text + repaired_text(broken),
{
    encode_utf8_valid_utf8(text);
    encode_utf8_decode_utf8(text);
    law_valid_beginning_is_kept(encode_utf8(text), broken);
    lemma_valid_up_to(broken);
    assert(broken.take(broken.len() as int) =~= broken);
    assert(valid_up_to(broken) == 0);
    assert(broken.skip(0) =~= broken);
    assert(broken.take(0) =~= Seq::<u8>::empty());
    assert(decode_utf8(Seq::<u8>::empty()) =~= Seq::<char>::empty());
    assert(lenient_text(broken) =~= repaired_text(broken));
}

}
