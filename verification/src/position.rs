//! Positions as the language server protocol counts them: lines, and UTF-16 code units in a line.

use crate::text::lemma_encode_concat;
use vstd::prelude::*;
use vstd::utf8::*;

verus! {

/// The text before byte `offset` of `source`; all of it, if `offset` is past the end or inside a
/// character.
pub open spec fn text_before(source: Seq<char>, offset: int) -> Seq<char> {
    let bytes = encode_utf8(source);
    if is_char_boundary(bytes, offset) {
        decode_utf8(bytes.subrange(0, offset))
    } else {
        source
    }
}

/// How many line feeds `text` holds.
pub open spec fn line_feeds(text: Seq<char>) -> nat
    decreases text.len(),
{
    if text.len() == 0 {
        0
    } else if text.last() == '\n' {
        line_feeds(text.drop_last()) + 1
    } else {
        line_feeds(text.drop_last())
    }
}

/// How many UTF-16 code units encode `c`.
pub open spec fn utf16_units(c: char) -> nat {
    if c as u32 >= 0x10000 {
        2
    } else {
        1
    }
}

/// How many UTF-16 code units stand behind the last line feed or carriage return of `text`.
pub open spec fn utf16_column(text: Seq<char>) -> nat
    decreases text.len(),
{
    if text.len() == 0 || text.last() == '\n' || text.last() == '\r' {
        0
    } else {
        utf16_column(text.drop_last()) + utf16_units(text.last())
    }
}

/// `n`, or the largest `u32` where `n` is larger.
pub open spec fn capped(n: nat) -> u32 {
    if n <= u32::MAX {
        n as u32
    } else {
        u32::MAX
    }
}

/// The line and the column of byte `offset` in `source`, both counted from zero.
pub open spec fn position(source: Seq<char>, offset: int) -> (u32, u32) {
    let before = text_before(source, offset);
    (capped(line_feeds(before)), capped(utf16_column(before)))
}

/// The line and the column of byte `offset` in `source`.
pub fn lsp_position(source: &str, offset: usize) -> (found: (u32, u32))
    ensures
        found == position(source@, offset as int),
{
    proof {
        encode_utf8_valid_utf8(source@);
        encode_utf8_decode_utf8(source@);
    }
    let before: &str = if source.is_char_boundary(offset) {
        let (head, _) = source.split_at(offset);
        proof {
            encode_utf8_decode_utf8(head@);
        }
        head
    } else {
        source
    };
    assert(before@ == text_before(source@, offset as int));
    let mut line: u32 = 0;
    let mut column: u32 = 0;
    for c in it: before.chars()
        invariant
            it.seq() == before@,
            line == capped(line_feeds(before@.take(it.index()))),
            column == capped(utf16_column(before@.take(it.index()))),
    {
        proof {
            let longer = before@.take(it.index() + 1);
            assert(longer.drop_last() =~= before@.take(it.index()));
            assert(longer.last() == c);
        }
        if c == '\n' {
            line = line.saturating_add(1);
            column = 0;
        } else if c == '\r' {
            column = 0;
        } else if c as u32 >= 0x10000 {
            column = column.saturating_add(2);
        } else {
            column = column.saturating_add(1);
        }
    }
    assert(before@.take(before@.len() as int) =~= before@);
    (line, column)
}

/// How many UTF-16 code units encode `text`.
pub open spec fn utf16_length(text: Seq<char>) -> nat
    decreases text.len(),
{
    if text.len() == 0 {
        0
    } else {
        utf16_length(text.drop_last()) + utf16_units(text.last())
    }
}

/// `text` holds neither a line feed nor a carriage return.
pub open spec fn on_one_line(text: Seq<char>) -> bool {
    forall|i: int| 0 <= i < text.len() ==> #[trigger] text[i] != '\n' && text[i] != '\r'
}

/// The end of a leading part of a text is a character boundary.
proof fn lemma_boundary(before: Seq<char>, after: Seq<char>)
    ensures
        is_char_boundary(encode_utf8(before + after), encode_utf8(before).len() as int),
    decreases before.len(),
{
    let whole = before + after;
    let bytes = encode_utf8(whole);
    encode_utf8_valid_utf8(whole);
    if before.len() > 0 {
        let tail = before.drop_first();
        lemma_boundary(tail, after);
        assert(whole.drop_first() =~= tail + after);
        encode_utf8_first_scalar(whole);
        encode_utf8_valid_utf8(tail + after);
        assert(pop_first_scalar(bytes) =~= encode_utf8(tail + after));
        lemma_encode_concat(before, after);
    }
}

/// The position of the place between two parts of a text is made of the line feeds, and of the
/// code units on the last line, of the first part alone.
pub proof fn law_position_depends_on_what_is_before(before: Seq<char>, after: Seq<char>)
    ensures
        position(before + after, encode_utf8(before).len() as int) == (
            capped(line_feeds(before)),
            capped(utf16_column(before)),
        ),
{
    lemma_boundary(before, after);
    lemma_encode_concat(before, after);
    let bytes = encode_utf8(before + after);
    assert(bytes.subrange(0, encode_utf8(before).len() as int) =~= encode_utf8(before));
    encode_utf8_decode_utf8(before);
}

/// Columns count the UTF-16 code units of the line, from its beginning: behind a line feed or a
/// carriage return they start over, and only the line feed begins a new line.
pub proof fn law_columns_count_code_units_of_the_line(head: Seq<char>, end: char, line: Seq<char>)
    requires
        end == '\n' || end == '\r',
        on_one_line(line),
    ensures
        utf16_column(line) == utf16_length(line),
        utf16_column(head.push(end) + line) == utf16_length(line),
        line_feeds(head.push(end) + line) == line_feeds(head) + if end == '\n' {
            1nat
        } else {
            0nat
        },
    decreases line.len(),
{
    let text = head.push(end) + line;
    if line.len() == 0 {
        assert(text =~= head.push(end));
        assert(text.drop_last() =~= head);
    } else {
        law_columns_count_code_units_of_the_line(head, end, line.drop_last());
        assert(text.drop_last() =~= head.push(end) + line.drop_last());
        assert(line.last() != '\n' && line.last() != '\r');
    }
}

/// Further on in a text the line number is never smaller.
pub proof fn law_lines_never_go_back(before: Seq<char>, between: Seq<char>, after: Seq<char>)
    ensures
        position(before + between + after, encode_utf8(before).len() as int).0 <= position(
            before + between + after,
            encode_utf8(before + between).len() as int,
        ).0,
{
    law_position_depends_on_what_is_before(before + between, after);
    law_position_depends_on_what_is_before(before, between + after);
    assert(before + (between + after) =~= before + between + after);
    lemma_line_feeds_grow(before, between);
}

proof fn lemma_line_feeds_grow(before: Seq<char>, between: Seq<char>)
    ensures
        line_feeds(before) <= line_feeds(before + between),
    decreases between.len(),
{
    if between.len() == 0 {
        assert(before + between =~= before);
    } else {
        lemma_line_feeds_grow(before, between.drop_last());
        assert((before + between).drop_last() =~= before + between.drop_last());
    }
}

/// The line number counts the line feeds, and no other character.
pub proof fn law_lines_count_line_feeds(text: Seq<char>)
    ensures
        line_feeds(text) == text.filter(|c: char| c == '\n').len(),
    decreases text.len(),
{
    reveal(Seq::filter);
    if text.len() > 0 {
        law_lines_count_line_feeds(text.drop_last());
    }
}

/// Behind the beginning of a line, the column is the number of characters since, and one more for
/// each of them outside the basic multilingual plane. So on a line without such characters it is
/// the number of characters, whichever they are.
pub proof fn law_columns_count_characters(head: Seq<char>, line: Seq<char>)
    requires
        head.len() == 0 || head.last() == '\n' || head.last() == '\r',
        forall|i: int| 0 <= i < line.len() ==> #[trigger] line[i] != '\n' && line[i] != '\r',
    ensures
        utf16_column(head + line) == line.len() + line.filter(|c: char| c as u32 >= 0x10000).len(),
        (forall|i: int| 0 <= i < line.len() ==> 0x10000 > (#[trigger] line[i]) as u32)
            ==> utf16_column(head + line) == line.len(),
    decreases line.len(),
{
    reveal(Seq::filter);
    if line.len() == 0 {
        assert(head + line =~= head);
    } else {
        let shorter = line.drop_last();
        assert forall|i: int| 0 <= i < shorter.len() implies #[trigger] shorter[i] != '\n'
            && shorter[i] != '\r' by {
            assert(shorter[i] == line[i]);
        }
        law_columns_count_characters(head, shorter);
        assert((head + line).drop_last() =~= head + shorter);
        assert(line.last() != '\n' && line.last() != '\r');
        if forall|i: int| 0 <= i < line.len() ==> 0x10000 > (#[trigger] line[i]) as u32 {
            assert forall|i: int| 0 <= i < shorter.len() implies 0x10000
                > (#[trigger] shorter[i]) as u32 by {
                assert(shorter[i] == line[i]);
            }
            assert((line.last() as u32) < 0x10000);
        }
    }
}

/// The position of a byte between two characters, in the terms of the text before it: the line
/// feeds there, and the characters since the last line end, with those outside the basic
/// multilingual plane counted twice. Numbers that no `u32` holds become the largest that it holds.
pub proof fn law_position_of_a_place(head: Seq<char>, line: Seq<char>, after: Seq<char>)
    requires
        head.len() == 0 || head.last() == '\n' || head.last() == '\r',
        forall|i: int| 0 <= i < line.len() ==> #[trigger] line[i] != '\n' && line[i] != '\r',
    ensures
        ({
            let lines = head.filter(|c: char| c == '\n').len();
            let units = line.len() + line.filter(|c: char| c as u32 >= 0x10000).len();
            let found = position(head + line + after, encode_utf8(head + line).len() as int);
            &&& found.0 as int == if lines < 0x1_0000_0000 { lines as int } else { 0xffff_ffff }
            &&& found.1 as int == if units < 0x1_0000_0000 { units as int } else { 0xffff_ffff }
        }),
{
    law_position_depends_on_what_is_before(head + line, after);
    law_columns_count_characters(head, line);
    law_lines_count_line_feeds(head);
    lemma_no_line_feeds(head, line);
}

/// A line without line ends adds no line feeds.
proof fn lemma_no_line_feeds(head: Seq<char>, line: Seq<char>)
    requires
        forall|i: int| 0 <= i < line.len() ==> #[trigger] line[i] != '\n' && line[i] != '\r',
    ensures
        line_feeds(head + line) == line_feeds(head),
    decreases line.len(),
{
    if line.len() == 0 {
        assert(head + line =~= head);
    } else {
        let shorter = line.drop_last();
        assert forall|i: int| 0 <= i < shorter.len() implies #[trigger] shorter[i] != '\n'
            && shorter[i] != '\r' by {
            assert(shorter[i] == line[i]);
        }
        lemma_no_line_feeds(head, shorter);
        assert((head + line).drop_last() =~= head + shorter);
        assert(line.last() != '\n');
    }
}

/// An offset past the end of a text means its end.
pub proof fn law_offset_past_the_end(source: Seq<char>, offset: int)
    requires
        offset > encode_utf8(source).len(),
    ensures
        position(source, offset) == position(source, encode_utf8(source).len() as int),
{
    encode_utf8_valid_utf8(source);
    lemma_position_at_the_end(source);
}

/// An offset inside a character means the end of the text.
pub proof fn law_offset_inside_a_character(
    before: Seq<char>,
    c: char,
    after: Seq<char>,
    offset: int,
)
    requires
        encode_utf8(before).len() < offset < encode_utf8(before.push(c)).len(),
    ensures
        position(before.push(c) + after, offset) == position(
            before.push(c) + after,
            encode_utf8(before.push(c) + after).len() as int,
        ),
{
    let source = before.push(c) + after;
    lemma_inside(before, c, after, offset);
    lemma_position_at_the_end(source);
}

/// At the end of a text, all of it is before.
proof fn lemma_position_at_the_end(source: Seq<char>)
    ensures
        text_before(source, encode_utf8(source).len() as int) == source,
{
    let bytes = encode_utf8(source);
    encode_utf8_decode_utf8(source);
    assert(bytes.subrange(0, bytes.len() as int) =~= bytes);
}

/// There is no character boundary inside a character.
proof fn lemma_inside(before: Seq<char>, c: char, after: Seq<char>, offset: int)
    requires
        encode_utf8(before).len() < offset < encode_utf8(before.push(c)).len(),
    ensures
        !is_char_boundary(encode_utf8(before.push(c) + after), offset),
    decreases before.len(),
{
    let source = before.push(c) + after;
    let bytes = encode_utf8(source);
    encode_utf8_valid_utf8(source);
    encode_utf8_first_scalar(source);
    let tail = source.drop_first();
    assert(pop_first_scalar(bytes) =~= encode_utf8(tail));
    encode_utf8_valid_utf8(tail);
    if before.len() == 0 {
        assert(source[0] == c);
        let alone = before.push(c);
        assert(alone.drop_first() =~= Seq::<char>::empty());
        assert(encode_utf8(alone).len() == encode_scalar(c as u32).len() + encode_utf8(
            Seq::<char>::empty(),
        ).len());
        assert(encode_utf8(Seq::<char>::empty()).len() == 0);
        assert(offset - length_of_first_scalar(bytes) < 0);
        assert(!is_char_boundary(encode_utf8(tail), offset - length_of_first_scalar(bytes)));
    } else {
        let rest = before.drop_first();
        assert(before.push(c).drop_first() =~= rest.push(c));
        assert(tail =~= rest.push(c) + after);
        assert(before.push(c)[0] == before[0]);
        let width = encode_scalar(before[0] as u32).len();
        assert(encode_utf8(before).len() == width + encode_utf8(rest).len());
        assert(encode_utf8(before.push(c)).len() == width + encode_utf8(rest.push(c)).len());
        lemma_inside(rest, c, after, offset - width);
    }
}

}
