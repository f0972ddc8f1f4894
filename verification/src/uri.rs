//! `file` URIs and the paths that they name.

use crate::text::{
    begins_with, begins_with_chars, chars_of, decode_lossy, law_lenient_decoding,
    law_prefixes_begin, law_valid_beginning_is_kept, lemma_encode_concat, lenient_text,
    repaired_text, string_of,
};
use std::path::PathBuf;
use vstd::prelude::*;
use vstd::utf8::*;

verus! {

#[verifier::external_type_specification]
#[verifier::external_body]
pub struct ExPathBuf(std::path::PathBuf);

/// The path that `text` spells.
pub uninterp spec fn path_of(text: Seq<char>) -> PathBuf;

/// `PathBuf::from` on a string, which depends on the text of the string alone.
#[verifier::external_body]
pub(crate) fn path_from(text: String) -> (path: PathBuf)
    ensures
        path == path_of(text@),
{
    PathBuf::from(text)
}

/// The value of a hexadecimal digit, in upper or lower case.
pub open spec fn hex_digit(byte: u8) -> Option<u8> {
    if 0x30 <= byte <= 0x39 {
        Some((byte - 0x30) as u8)
    } else if 0x41 <= byte <= 0x46 {
        Some((byte - 0x41 + 10) as u8)
    } else if 0x61 <= byte <= 0x66 {
        Some((byte - 0x61 + 10) as u8)
    } else {
        None
    }
}

/// The byte that two characters write in base sixteen: two digits, or a plus sign and one digit.
pub open spec fn hex_pair(first: u8, second: u8) -> Option<u8> {
    match (hex_digit(first), hex_digit(second)) {
        (Some(high), Some(low)) => Some((high * 16 + low) as u8),
        (None, Some(low)) => if first == 0x2b {
            Some(low)
        } else {
            None
        },
        (_, None) => None,
    }
}

/// `bytes` with every percent sign that a byte in base sixteen follows replaced, together with
/// it, by that byte.
pub open spec fn percent_decoded(bytes: Seq<u8>) -> Seq<u8>
    decreases bytes.len(),
{
    if bytes.len() == 0 {
        bytes
    } else if bytes[0] == 0x25 && bytes.len() > 2 && hex_pair(bytes[1], bytes[2]) is Some {
        seq![hex_pair(bytes[1], bytes[2])->0] + percent_decoded(bytes.skip(3))
    } else {
        seq![bytes[0]] + percent_decoded(bytes.skip(1))
    }
}

/// `text` with its percent escapes undone. The escapes stand for bytes, and the bytes for UTF-8.
pub open spec fn unescaped_text(text: Seq<char>) -> Seq<char> {
    lenient_text(percent_decoded(encode_utf8(text)))
}

/// `path` without its leading slash where that stands before a drive letter.
pub open spec fn without_drive_slash(path: Seq<char>) -> Seq<char> {
    if path.len() >= 3 && path[0] == '/' && is_letter(path[1]) && path[2] == ':' {
        path.drop_first()
    } else {
        path
    }
}

pub open spec fn is_letter(c: char) -> bool {
    'a' <= c <= 'z' || 'A' <= c <= 'Z'
}

/// The text of the path that a `file` URI names; nothing for any other URI.
pub open spec fn uri_path(uri: Seq<char>) -> Option<Seq<char>> {
    if begins_with(uri, "file://"@) {
        Some(without_drive_slash(unescaped_text(uri.skip("file://"@.len() as int))))
    } else {
        None
    }
}

/// How a character of a path is written in a URI.
pub open spec fn escaped(c: char) -> Seq<char> {
    if c == '\\' {
        "/"@
    } else if c == '%' {
        "%25"@
    } else if c == ' ' {
        "%20"@
    } else if c == '#' {
        "%23"@
    } else {
        seq![c]
    }
}

/// How a path is written in a URI, character by character.
pub open spec fn escaped_text(path: Seq<char>) -> Seq<char>
    decreases path.len(),
{
    if path.len() == 0 {
        seq![]
    } else {
        escaped(path[0]) + escaped_text(path.drop_first())
    }
}

/// The `file` URI for the absolute path with the text `path`.
pub open spec fn file_uri(path: Seq<char>) -> Seq<char> {
    let written = escaped_text(path);
    if written.len() > 0 && written[0] == '/' {
        "file://"@ + written
    } else {
        "file:///"@ + written
    }
}

/// The value of a hexadecimal digit.
fn hex_digit_value(byte: u8) -> (value: Option<u8>)
    ensures
        value == hex_digit(byte),
{
    if 0x30 <= byte && byte <= 0x39 {
        Some(byte - 0x30)
    } else if 0x41 <= byte && byte <= 0x46 {
        Some(byte - 0x41 + 10)
    } else if 0x61 <= byte && byte <= 0x66 {
        Some(byte - 0x61 + 10)
    } else {
        None
    }
}

/// The byte that two characters write in base sixteen.
fn hex_pair_value(first: u8, second: u8) -> (value: Option<u8>)
    ensures
        value == hex_pair(first, second),
{
    match (hex_digit_value(first), hex_digit_value(second)) {
        (Some(high), Some(low)) => Some(high * 16 + low),
        (None, Some(low)) => if first == 0x2b {
            Some(low)
        } else {
            None
        },
        (_, None) => None,
    }
}

/// Undoes the percent escapes in `value`.
pub fn percent_decode(value: &str) -> (text: String)
    ensures
        text@ == unescaped_text(value@),
{
    let bytes = value.as_bytes();
    let mut output: Vec<u8> = Vec::new();
    let mut index: usize = 0;
    assert(bytes@.skip(0) =~= bytes@);
    while index < bytes.len()
        invariant
            index <= bytes@.len(),
            percent_decoded(bytes@) == output@ + percent_decoded(bytes@.skip(index as int)),
        decreases bytes@.len() - index,
    {
        let ghost rest = bytes@.skip(index as int);
        let ghost before = output@;
        if bytes[index] == 0x25 && bytes.len() - index > 2 {
            if let Some(byte) = hex_pair_value(bytes[index + 1], bytes[index + 2]) {
                output.push(byte);
                proof {
                    assert(rest.skip(3) =~= bytes@.skip(index + 3));
                    assert(output@ =~= before + seq![byte]);
                    assert(output@ + percent_decoded(rest.skip(3)) =~= before + (seq![byte]
                        + percent_decoded(rest.skip(3))));
                }
                index = index + 3;
                continue;
            }
        }
        output.push(bytes[index]);
        proof {
            assert(rest.skip(1) =~= bytes@.skip(index + 1));
            assert(output@ =~= before + seq![bytes@[index as int]]);
            assert(output@ + percent_decoded(rest.skip(1)) =~= before + (seq![rest[0]]
                + percent_decoded(rest.skip(1))));
        }
        index = index + 1;
    }
    assert(output@ + percent_decoded(bytes@.skip(index as int)) =~= output@);
    decode_lossy(output.as_slice())
}

/// The text of the path that a `file` URI names.
pub fn uri_to_path_text(uri: &str) -> (path: Option<String>)
    ensures
        match path {
            Some(text) => uri_path(uri@) == Some(text@),
            None => uri_path(uri@) is None,
        },
{
    let chars = chars_of(uri);
    if !begins_with_chars(chars.as_slice(), "file://") {
        return None;
    }
    let scheme: usize = "file://".unicode_len();
    let rest = uri.substring_char(scheme, chars.len());
    assert(rest@ =~= uri@.skip("file://"@.len() as int));
    let decoded = percent_decode(rest);
    let path = chars_of(decoded.as_str());
    if path.len() >= 3 && path[0] == '/' && (('a' <= path[1] && path[1] <= 'z') || ('A' <= path[1]
        && path[1] <= 'Z')) && path[2] == ':' {
        let tail = vstd::slice::slice_subrange(path.as_slice(), 1, path.len());
        assert(tail@ =~= path@.drop_first());
        Some(string_of(tail))
    } else {
        Some(decoded)
    }
}

/// The path that a `file` URI names.
pub fn uri_to_path(uri: &str) -> (path: Option<PathBuf>)
    ensures
        path == match uri_path(uri@) {
            Some(text) => Some(path_of(text)),
            None => None,
        },
{
    match uri_to_path_text(uri) {
        Some(text) => Some(path_from(text)),
        None => None,
    }
}

/// The `file` URI for the absolute path with the text `path`.
pub fn absolute_uri(path: &str) -> (uri: String)
    ensures
        uri@ == file_uri(path@),
{
    let chars = chars_of(path);
    let mut written = String::new();
    let mut i: usize = 0;
    assert(chars@.skip(0) =~= chars@);
    while i < chars.len()
        invariant
            i <= chars@.len(),
            escaped_text(chars@) == written@ + escaped_text(chars@.skip(i as int)),
        decreases chars@.len() - i,
    {
        let ghost rest = chars@.skip(i as int);
        let ghost before = written@;
        let c: char = chars[i];
        if c == '\\' {
            written.append("/");
        } else if c == '%' {
            written.append("%25");
        } else if c == ' ' {
            written.append("%20");
        } else if c == '#' {
            written.append("%23");
        } else {
            written.push(c);
        }
        proof {
            assert(written@ =~= before + escaped(c));
            assert(rest.drop_first() =~= chars@.skip(i + 1));
            assert(written@ + escaped_text(rest.drop_first()) =~= before + (escaped(c)
                + escaped_text(rest.drop_first())));
        }
        i = i + 1;
    }
    assert(written@ + escaped_text(chars@.skip(i as int)) =~= written@);
    let absolute = begins_with_chars(chars_of(written.as_str()).as_slice(), "/");
    proof {
        reveal_strlit("/");
        if written@.len() > 0 {
            assert(written@.take(1)[0] == written@[0]);
            assert(written@[0] == '/' ==> written@.take(1) =~= "/"@);
        }
    }
    let mut uri = if absolute {
        "file://".to_owned()
    } else {
        "file:///".to_owned()
    };
    uri.append(written.as_str());
    uri
}

/// `path` with slashes for backslashes.
pub open spec fn slashed(path: Seq<char>) -> Seq<char> {
    path.map_values(
        |c: char|
            if c == '\\' {
                '/'
            } else {
                c
            },
    )
}

/// `path` with a leading slash, which is added where there is none.
pub open spec fn rooted(path: Seq<char>) -> Seq<char> {
    if path.len() > 0 && path[0] == '/' {
        path
    } else {
        seq!['/'] + path
    }
}

/// The UTF-8 encoding of a character other than the percent sign holds no percent sign.
proof fn lemma_no_percent(c: char)
    requires
        c != '%',
    ensures
        forall|i: int|
            0 <= i < encode_scalar(c as u32).len() ==> #[trigger] encode_scalar(c as u32)[i]
                != 0x25,
{
    let code = c as u32;
    assert(code != 0x25);
    assert(has_width_1_encoding(code) && code != 0x25 ==> leading_byte_width_1(code) != 0x25)
        by (bit_vector);
    assert(leading_byte_width_2(code) != 0x25 && leading_byte_width_3(code) != 0x25
        && leading_byte_width_4(code) != 0x25) by (bit_vector);
    assert(last_continuation_byte(code) != 0x25 && second_last_continuation_byte(code) != 0x25
        && third_last_continuation_byte(code) != 0x25) by (bit_vector);
}

/// Bytes without a percent sign stay as they are.
proof fn lemma_decode_plain(plain: Seq<u8>, rest: Seq<u8>)
    requires
        forall|i: int| 0 <= i < plain.len() ==> #[trigger] plain[i] != 0x25,
    ensures
        percent_decoded(plain + rest) == plain + percent_decoded(rest),
    decreases plain.len(),
{
    if plain.len() == 0 {
        assert(plain + rest =~= rest);
        assert(plain + percent_decoded(rest) =~= percent_decoded(rest));
    } else {
        let tail = plain.skip(1);
        lemma_decode_plain(tail, rest);
        assert((plain + rest)[0] == plain[0]);
        assert((plain + rest).skip(1) =~= tail + rest);
        assert(plain =~= seq![plain[0]] + tail);
        assert(seq![plain[0]] + (tail + percent_decoded(rest)) =~= plain + percent_decoded(rest));
    }
}

/// A written escape is decoded to the byte that it stands for.
proof fn lemma_decode_escape(escape: Seq<u8>, rest: Seq<u8>)
    requires
        escape.len() == 3,
        escape[0] == 0x25,
        hex_pair(escape[1], escape[2]) is Some,
    ensures
        percent_decoded(escape + rest) == seq![hex_pair(escape[1], escape[2])->0]
            + percent_decoded(rest),
{
    assert((escape + rest).skip(3) =~= rest);
}

/// Decoding undoes escaping, but for backslashes, which have become slashes.
proof fn lemma_escapes_undone(path: Seq<char>)
    ensures
        percent_decoded(encode_utf8(escaped_text(path))) == encode_utf8(slashed(path)),
    decreases path.len(),
{
    if path.len() > 0 {
        let c = path[0];
        let tail = path.drop_first();
        let rest = encode_utf8(escaped_text(tail));
        lemma_escapes_undone(tail);
        lemma_encode_concat(escaped(c), escaped_text(tail));
        assert(slashed(path)[0] == if c == '\\' {
            '/'
        } else {
            c
        });
        assert(slashed(path).drop_first() =~= slashed(tail));
        reveal_strlit("/");
        reveal_strlit("%25");
        reveal_strlit("%20");
        reveal_strlit("%23");
        if c == '%' || c == ' ' || c == '#' {
            let escape = escaped(c);
            assert(is_ascii_chars(escape));
            is_ascii_chars_encode_utf8(escape);
            let bytes = encode_utf8(escape);
            assert(escape[0] as u8 == bytes[0] && escape[1] as u8 == bytes[1] && escape[2] as u8
                == bytes[2]);
            lemma_decode_escape(bytes, rest);
            let alone = seq![c];
            assert(is_ascii_chars(alone));
            is_ascii_chars_encode_utf8(alone);
            assert(alone[0] as u8 == encode_utf8(alone)[0]);
            assert(slashed(path) =~= alone + slashed(tail));
            lemma_encode_concat(alone, slashed(tail));
            assert(seq![hex_pair(bytes[1], bytes[2])->0] =~= encode_utf8(alone));
        } else {
            let d = slashed(path)[0];
            let alone = seq![d];
            assert(escaped(c) =~= alone);
            lemma_no_percent(d);
            assert(alone.drop_first() =~= Seq::<char>::empty());
            assert(encode_utf8(Seq::<char>::empty()) =~= Seq::<u8>::empty());
            assert(encode_utf8(alone) =~= encode_scalar(d as u32));
            lemma_decode_plain(encode_utf8(alone), rest);
        }
    }
}

/// A path that is written as a URI and read back is the path again: with slashes for backslashes,
/// with a leading slash where it had none, and without one that would stand before a drive letter.
pub proof fn law_path_survives_its_uri(path: Seq<char>)
    ensures
        uri_path(file_uri(path)) == Some(without_drive_slash(rooted(slashed(path)))),
{
    let written = escaped_text(path);
    let uri = file_uri(path);
    reveal_strlit("file://");
    reveal_strlit("file:///");
    reveal_strlit("/");
    reveal_strlit("%25");
    reveal_strlit("%20");
    reveal_strlit("%23");
    lemma_escapes_undone(path);
    encode_utf8_valid_utf8(slashed(path));
    encode_utf8_decode_utf8(slashed(path));
    assert(uri.take(7) =~= "file://"@);
    if path.len() > 0 {
        assert(written[0] == escaped(path[0])[0]);
        assert(slashed(path)[0] == '/' <==> written[0] == '/');
    }
    if written.len() > 0 && written[0] == '/' {
        assert(uri.skip(7) =~= written);
    } else {
        let slash = seq!['/'];
        assert(uri.skip(7) =~= slash + written);
        lemma_encode_concat(slash, written);
        lemma_encode_concat(slash, slashed(path));
        assert(is_ascii_chars(slash));
        is_ascii_chars_encode_utf8(slash);
        assert(slash[0] as u8 == encode_utf8(slash)[0]);
        lemma_decode_plain(encode_utf8(slash), encode_utf8(written));
        encode_utf8_valid_utf8(rooted(slashed(path)));
        encode_utf8_decode_utf8(rooted(slashed(path)));
    }
}

/// An absolute path with slashes alone comes back from its URI as it was. The paths that read as a
/// slash before a drive letter are left out: they come back without the slash.
pub proof fn law_slash_path_is_unchanged(path: Seq<char>)
    requires
        path.len() > 0,
        path[0] == '/',
        !path.contains('\\'),
        without_drive_slash(path) == path,
    ensures
        uri_path(file_uri(path)) == Some(path),
{
    law_path_survives_its_uri(path);
    lemma_slashed_is_identity(path);
}

/// A path that begins with a drive letter, and has slashes alone, comes back from its URI as it
/// was.
pub proof fn law_drive_path_is_unchanged(path: Seq<char>)
    requires
        path.len() >= 2,
        is_letter(path[0]),
        path[1] == ':',
        !path.contains('\\'),
    ensures
        uri_path(file_uri(path)) == Some(path),
{
    law_path_survives_its_uri(path);
    lemma_slashed_is_identity(path);
    assert((seq!['/'] + path).drop_first() =~= path);
}

proof fn lemma_slashed_is_identity(path: Seq<char>)
    requires
        !path.contains('\\'),
    ensures
        slashed(path) == path,
{
    assert forall|i: int| 0 <= i < path.len() implies path[i] != '\\' by {
        assert(path.contains(path[i]));
    }
    assert(slashed(path) =~= path);
}

/// Text without a percent sign holds no escapes and is decoded to itself.
pub proof fn law_plain_text_is_decoded_to_itself(text: Seq<char>)
    requires
        !text.contains('%'),
    ensures
        unescaped_text(text) == text,
{
    lemma_encoded_plain(text);
    let bytes = encode_utf8(text);
    lemma_decode_plain(bytes, Seq::<u8>::empty());
    assert(bytes + Seq::<u8>::empty() =~= bytes);
    assert(bytes + percent_decoded(Seq::<u8>::empty()) =~= bytes);
    encode_utf8_valid_utf8(text);
    encode_utf8_decode_utf8(text);
}

/// A beginning without a percent sign passes through in front of any rest: it stays as it is, and
/// the rest is decoded as it would be alone.
pub proof fn law_plain_beginning_passes_through(first: Seq<char>, rest: Seq<char>)
    requires
        !first.contains('%'),
    ensures
        unescaped_text(first + rest) == first + unescaped_text(rest),
{
    lemma_encoded_plain(first);
    lemma_encode_concat(first, rest);
    lemma_decode_plain(encode_utf8(first), encode_utf8(rest));
    encode_utf8_valid_utf8(first);
    encode_utf8_decode_utf8(first);
    law_valid_beginning_is_kept(encode_utf8(first), percent_decoded(encode_utf8(rest)));
}

/// Decoding makes no text longer, counted in bytes of UTF-8, where the escapes stand for valid
/// UTF-8.
pub proof fn law_decoding_does_not_lengthen(text: Seq<char>)
    requires
        valid_utf8(percent_decoded(encode_utf8(text))),
    ensures
        encode_utf8(unescaped_text(text)).len() <= encode_utf8(text).len(),
{
    law_escapes_undone_add_no_bytes(encode_utf8(text));
    decode_utf8_encode_utf8(percent_decoded(encode_utf8(text)));
}

/// With its escapes undone, a sequence of bytes is never longer than before.
pub proof fn law_escapes_undone_add_no_bytes(bytes: Seq<u8>)
    ensures
        percent_decoded(bytes).len() <= bytes.len(),
    decreases bytes.len(),
{
    if bytes.len() == 0 {
    } else if bytes[0] == 0x25 && bytes.len() > 2 && hex_pair(bytes[1], bytes[2]) is Some {
        law_escapes_undone_add_no_bytes(bytes.skip(3));
    } else {
        law_escapes_undone_add_no_bytes(bytes.skip(1));
    }
}

/// The encoding of text without a percent sign holds no percent sign.
proof fn lemma_encoded_plain(text: Seq<char>)
    requires
        !text.contains('%'),
    ensures
        forall|i: int| 0 <= i < encode_utf8(text).len() ==> #[trigger] encode_utf8(text)[i] != 0x25,
    decreases text.len(),
{
    if text.len() > 0 {
        let tail = text.drop_first();
        assert(text.contains(text[0]));
        assert forall|c: char| tail.contains(c) implies text.contains(c) by {
            let i = tail.index_of(c);
            assert(text[i + 1] == c);
        }
        lemma_encoded_plain(tail);
        lemma_no_percent(text[0]);
        let first = encode_scalar(text[0] as u32);
        assert forall|i: int| 0 <= i < encode_utf8(text).len() implies #[trigger] encode_utf8(
            text,
        )[i] != 0x25 by {
            if i >= first.len() {
                assert(encode_utf8(text)[i] == encode_utf8(tail)[i - first.len()]);
            } else {
                assert(encode_utf8(text)[i] == first[i]);
            }
        }
    }
}

/// A `file` URI holds no space, no number sign and no backslash.
pub proof fn law_uri_is_escaped(path: Seq<char>)
    ensures
        !file_uri(path).contains(' '),
        !file_uri(path).contains('#'),
        !file_uri(path).contains('\\'),
{
    reveal_strlit("file://");
    reveal_strlit("file:///");
    lemma_escaped_text(path);
    let uri = file_uri(path);
    assert forall|i: int| 0 <= i < uri.len() implies is_uri_char(#[trigger] uri[i]) by {
        let written = escaped_text(path);
        let scheme = uri.len() - written.len();
        if i >= scheme {
            assert(uri[i] == written[i - scheme]);
        }
    }
}

/// `c` is neither a space, nor a number sign, nor a backslash.
spec fn is_uri_char(c: char) -> bool {
    c != ' ' && c != '#' && c != '\\'
}

proof fn lemma_escaped_text(path: Seq<char>)
    ensures
        forall|i: int|
            0 <= i < escaped_text(path).len() ==> is_uri_char(#[trigger] escaped_text(path)[i]),
    decreases path.len(),
{
    if path.len() > 0 {
        reveal_strlit("/");
        reveal_strlit("%25");
        reveal_strlit("%20");
        reveal_strlit("%23");
        let tail = path.drop_first();
        let first = escaped(path[0]);
        lemma_escaped_text(tail);
        assert forall|i: int| 0 <= i < escaped_text(path).len() implies is_uri_char(
            #[trigger] escaped_text(path)[i],
        ) by {
            if i >= first.len() {
                assert(escaped_text(path)[i] == escaped_text(tail)[i - first.len()]);
            } else {
                assert(escaped_text(path)[i] == first[i]);
            }
        }
    }
}

/// `digit` writes `value` in base sixteen, as a figure or as a letter in either case.
pub open spec fn writes_in_hex(digit: u8, value: int) -> bool {
    ||| 0 <= value < 10 && digit == 0x30 + value
    ||| 10 <= value < 16 && digit == 0x61 + value - 10
    ||| 10 <= value < 16 && digit == 0x41 + value - 10
}

/// Every byte can be escaped: a percent sign and the two digits of the byte in base sixteen are
/// decoded to that byte, and the rest as it would be alone.
pub proof fn law_escape_is_its_byte(byte: u8, first: u8, second: u8, rest: Seq<u8>)
    requires
        writes_in_hex(first, byte as int / 16),
        writes_in_hex(second, byte as int % 16),
    ensures
        percent_decoded(seq![0x25u8, first, second] + rest) == seq![byte] + percent_decoded(rest),
{
    lemma_decode_escape(seq![0x25u8, first, second], rest);
}

/// A plus sign may stand in place of a leading zero.
pub proof fn law_plus_sign_is_a_leading_zero(value: u8, second: u8, rest: Seq<u8>)
    requires
        writes_in_hex(second, value as int),
    ensures
        percent_decoded(seq![0x25u8, 0x2bu8, second] + rest) == seq![value] + percent_decoded(rest),
{
    lemma_decode_escape(seq![0x25u8, 0x2bu8, second], rest);
}

/// Any other percent sign stays: one with fewer than two bytes behind it, and one with two bytes
/// that write no number in base sixteen. So does every byte that is no percent sign.
pub proof fn law_other_bytes_stay(byte: u8, rest: Seq<u8>)
    requires
        byte == 0x25 && rest.len() >= 2 ==> {
            ||| forall|value: int| !(#[trigger] writes_in_hex(rest[1], value))
            ||| rest[0] != 0x2b && forall|value: int| !(#[trigger] writes_in_hex(rest[0], value))
        },
    ensures
        percent_decoded(seq![byte] + rest) == seq![byte] + percent_decoded(rest),
        percent_decoded(Seq::<u8>::empty()) == Seq::<u8>::empty(),
{
    let bytes = seq![byte] + rest;
    assert(bytes.skip(1) =~= rest);
    if byte == 0x25 && rest.len() >= 2 {
        assert(bytes[1] == rest[0] && bytes[2] == rest[1]);
        lemma_hex_digit(rest[0]);
        lemma_hex_digit(rest[1]);
    }
}

/// A byte that has a value as a digit writes that value.
proof fn lemma_hex_digit(digit: u8)
    ensures
        hex_digit(digit) matches Some(value) ==> writes_in_hex(digit, value as int),
{
}

/// Escapes stand for the bytes of UTF-8: the text is the one that the decoded bytes encode, and
/// from a broken character on the one that lenient decoding makes of them.
pub proof fn law_escapes_stand_for_utf8(text: Seq<char>, decoded: Seq<char>, broken: Seq<u8>)
    requires
        forall|n: int| 0 < n <= broken.len() ==> !valid_utf8(#[trigger] broken.take(n)),
        percent_decoded(encode_utf8(text)) == encode_utf8(decoded) + broken,
    ensures
        unescaped_text(text) == decoded + if broken.len() == 0 {
            Seq::<char>::empty()
        } else {
            repaired_text(broken)
        },
{
    if broken.len() == 0 {
        assert(encode_utf8(decoded) + broken =~= encode_utf8(decoded));
        encode_utf8_valid_utf8(decoded);
        encode_utf8_decode_utf8(decoded);
        assert(decoded + Seq::<char>::empty() =~= decoded);
    } else {
        law_lenient_decoding(decoded, broken);
    }
}

/// A `file` URI names the text behind the scheme, with its escapes undone, and without a slash that
/// stands before a letter and a colon.
pub proof fn law_file_uri_names_its_path(rest: Seq<char>)
    ensures
        ({
            let path = unescaped_text(rest);
            let drive = path.len() >= 3 && path[0] == '/' && ('a' <= path[1] <= 'z' || 'A'
                <= path[1] <= 'Z') && path[2] == ':';
            uri_path("file://"@ + rest) == Some(
                if drive {
                    path.skip(1)
                } else {
                    path
                },
            )
        }),
{
    let scheme = "file://"@;
    let path = unescaped_text(rest);
    law_prefixes_begin(scheme + rest, scheme);
    assert((scheme + rest).skip(scheme.len() as int) =~= rest);
    if path.len() > 0 {
        assert(path.skip(1) =~= path.drop_first());
    }
}

/// No other URI names a path.
pub proof fn law_other_uris_name_nothing(uri: Seq<char>)
    requires
        forall|rest: Seq<char>| uri != #[trigger] ("file://"@ + rest),
    ensures
        uri_path(uri) is None,
{
    law_prefixes_begin(uri, "file://"@);
}

/// What a character of a path adds to the URI.
pub open spec fn uri_addition(c: char) -> Seq<char> {
    if c == '\\' {
        seq!['/']
    } else if c == '%' {
        seq!['%', '2', '5']
    } else if c == ' ' {
        seq!['%', '2', '0']
    } else if c == '#' {
        seq!['%', '2', '3']
    } else {
        seq![c]
    }
}

/// The URI of a longer path is that of the shorter one and what the further character adds: a slash
/// for a backslash, the escapes of the percent sign, the space and the number sign, and any other
/// character as it is.
pub proof fn law_uri_grows_with_the_path(path: Seq<char>, c: char)
    ensures
        path.len() > 0 ==> file_uri(path.push(c)) == file_uri(path) + uri_addition(c),
        c == '/' || c == '\\' ==> file_uri(seq![c]) == "file:///"@,
        c != '/' && c != '\\' ==> file_uri(seq![c]) == "file:///"@ + uri_addition(c),
        file_uri(Seq::<char>::empty()) == "file:///"@,
{
    reveal_strlit("/");
    reveal_strlit("%25");
    reveal_strlit("%20");
    reveal_strlit("%23");
    reveal_strlit("file://");
    reveal_strlit("file:///");
    assert(escaped(c) =~= uri_addition(c));
    let nothing = Seq::<char>::empty();
    lemma_escaped_push(nothing, c);
    assert(nothing.push(c) =~= seq![c]);
    assert(escaped_text(nothing) =~= nothing);
    assert(escaped_text(seq![c]) =~= uri_addition(c));
    assert("file:///"@ + nothing =~= "file:///"@);
    if c == '/' || c == '\\' {
        assert(file_uri(seq![c]) =~= "file:///"@);
    }
    if path.len() > 0 {
        lemma_escaped_push(path, c);
        assert(escaped_text(path).len() > 0) by {
            assert(escaped(path[0]).len() > 0);
        }
        assert(file_uri(path.push(c)) =~= file_uri(path) + uri_addition(c));
    }
}

/// Escaping goes character by character.
proof fn lemma_escaped_push(path: Seq<char>, c: char)
    ensures
        escaped_text(path.push(c)) == escaped_text(path) + escaped(c),
    decreases path.len(),
{
    let longer = path.push(c);
    if path.len() == 0 {
        assert(longer.drop_first() =~= path);
        assert(escaped_text(longer) =~= escaped_text(path) + escaped(c));
    } else {
        lemma_escaped_push(path.drop_first(), c);
        assert(longer.drop_first() =~= path.drop_first().push(c));
        assert(escaped_text(longer) =~= escaped_text(path) + escaped(c));
    }
}

}
