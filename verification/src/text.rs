//! Source text as a sequence of characters, byte offsets into it, and the
//! lines and columns by which a reader finds a character.

use vstd::prelude::*;
use vstd::std_specs::iter::IteratorSpec;
use vstd::utf8::encode_scalar;
use vstd::utf8::encode_utf8;

verus! {

broadcast use vstd::string::group_string_axioms;

/// `std::string::String::push` appends the character `ch` to the end of
/// the text and changes nothing else of it.
pub assume_specification[ std::string::String::push ](text: &mut std::string::String, ch: char)
    ensures
        final(text)@ == old(text)@.push(ch),
;

/// The number of bytes that `c` takes in UTF-8.
pub open spec fn utf8_width(c: char) -> nat {
    encode_scalar(c as u32).len()
}

/// The byte offset at which the character with index `index` starts in the
/// UTF-8 encoding of `text`: the encoded length of the characters before it.
pub open spec fn byte_offset(text: Seq<char>, index: int) -> nat
    decreases index,
{
    if index <= 0 {
        0
    } else {
        byte_offset(text, index - 1) + utf8_width(text[index - 1])
    }
}

/// The length of `text` in UTF-8.
pub open spec fn byte_length(text: Seq<char>) -> nat {
    byte_offset(text, text.len() as int)
}

/// Offsets grow with the index.
pub proof fn byte_offset_monotonic(text: Seq<char>, low: int, high: int)
    requires
        low <= high,
    ensures
        byte_offset(text, low) <= byte_offset(text, high),
    decreases high - low,
{
    if low < high {
        byte_offset_monotonic(text, low, high - 1);
    }
}

/// The byte length is the length of the UTF-8 encoding.
pub proof fn byte_length_is_encoded_length(text: Seq<char>)
    ensures
        byte_length(text) == encode_utf8(text).len(),
    decreases text.len(),
{
    if text.len() > 0 {
        let rest = text.drop_first();
        byte_length_is_encoded_length(rest);
        byte_offset_shift(text, text.len() as int);
    }
}

/// Dropping the first character lowers every later offset by its width.
proof fn byte_offset_shift(text: Seq<char>, index: int)
    requires
        1 <= index <= text.len(),
    ensures
        byte_offset(text, index) == utf8_width(text[0]) + byte_offset(
            text.drop_first(),
            index - 1,
        ),
    decreases index,
{
    if index > 1 {
        byte_offset_shift(text, index - 1);
        assert(text.drop_first()[index - 2] == text[index - 1]);
    } else {
        assert(byte_offset(text, 0) == 0);
        assert(byte_offset(text.drop_first(), 0) == 0);
        assert(byte_offset(text, 1) == byte_offset(text, 0) + utf8_width(text[0]));
    }
}

/// The number of line ends among the first `index` characters of `text`:
/// the character with that index stands in the line after them.
pub open spec fn lines_before(text: Seq<char>, index: int) -> nat
    decreases index,
{
    if index <= 0 {
        0
    } else if text[index - 1] == '\n' {
        lines_before(text, index - 1) + 1
    } else {
        lines_before(text, index - 1)
    }
}

/// The number of characters that stand in the line of the character with
/// index `index` before it.
pub open spec fn columns_before(text: Seq<char>, index: int) -> nat
    decreases index,
{
    if index <= 0 || text[index - 1] == '\n' {
        0
    } else {
        columns_before(text, index - 1) + 1
    }
}

/// The bytes between the character with index `from` and the place
/// `(to_line, to_column)`, both counted from 1, for a reader who has seen
/// `line` line ends and, behind the last of them, `column` characters.
///
/// The reader stops at the first character that stands in the line
/// `to_line` or a later one, at the column `to_column` or a later one, or
/// at the end of the text.
pub open spec fn bytes_up_to(
    text: Seq<char>,
    from: int,
    line: nat,
    column: nat,
    to_line: nat,
    to_column: nat,
) -> nat
    decreases
            if from < text.len() {
                text.len() - from
            } else {
                0
            },
{
    if from < 0 || from >= text.len() || (line + 1 >= to_line && column + 1 >= to_column) {
        0
    } else if text[from] == '\n' {
        utf8_width(text[from]) + bytes_up_to(text, from + 1, line + 1, 0, to_line, to_column)
    } else {
        utf8_width(text[from]) + bytes_up_to(text, from + 1, line, column + 1, to_line, to_column)
    }
}

/// The byte offset of the place `(line, column)` in `text`, lines and
/// columns counted from 1. A place that the text does not have gives the
/// offset of the first character behind it that stands at that column or
/// a later one, or the length of the text.
pub open spec fn location_offset(text: Seq<char>, line: nat, column: nat) -> nat {
    bytes_up_to(text, 0, 0, 0, line, column)
}

/// `miette::SourceOffset::from_location`, then `SourceOffset::offset`: the
/// byte offset in `source` of the place `(line, column)`, both counted
/// from 1. The function walks the characters of `source` from the first,
/// counts line ends and the characters behind the last of them, adds up
/// the UTF-8 widths of what it passes, and stops as [`bytes_up_to`] says.
#[verifier::external_body]
pub(crate) fn offset_of_location(source: &str, line: usize, column: usize) -> (out: usize)
    ensures
        out == location_offset(source@, line as nat, column as nat),
{
    miette::SourceOffset::from_location(source, line, column).offset()
}

/// A character stands behind every earlier one: in a later line, or in the
/// same line at a later column.
proof fn places_in_order(text: Seq<char>, low: int, high: int)
    requires
        0 <= low < high,
    ensures
        lines_before(text, low) < lines_before(text, high) || (lines_before(text, low)
            == lines_before(text, high) && columns_before(text, low) < columns_before(
            text,
            high,
        )),
    decreases high - low,
{
    if low < high - 1 {
        places_in_order(text, low, high - 1);
    }
}

/// A reader who stands at the character `from` reaches the place of the
/// character `index` after the bytes of the characters between the two.
proof fn reader_reaches(text: Seq<char>, from: int, index: int)
    requires
        0 <= from <= index <= text.len(),
    ensures
        byte_offset(text, from) + bytes_up_to(
            text,
            from,
            lines_before(text, from),
            columns_before(text, from),
            lines_before(text, index) + 1,
            columns_before(text, index) + 1,
        ) == byte_offset(text, index),
    decreases index - from,
{
    if from < index {
        places_in_order(text, from, index);
        reader_reaches(text, from + 1, index);
        assert(byte_offset(text, from + 1) == byte_offset(text, from) + utf8_width(text[from]));
    }
}

/// The place of a character, as line and column counted from 1, has the
/// byte offset of the character.
pub proof fn place_has_byte_offset(text: Seq<char>, index: int)
    requires
        0 <= index <= text.len(),
    ensures
        location_offset(
            text,
            lines_before(text, index) + 1,
            columns_before(text, index) + 1,
        ) == byte_offset(text, index),
{
    reader_reaches(text, 0, index);
}

/// The byte offset of the character with index `index`, which has
/// `lines` line ends before it and `columns` characters before it in its
/// line.
pub(crate) fn offset_at(
    source: &str,
    Ghost(index): Ghost<int>,
    lines: usize,
    columns: usize,
) -> (out: usize)
    requires
        0 <= index < source@.len(),
        source@.len() <= usize::MAX,
        lines == lines_before(source@, index),
        columns == columns_before(source@, index),
    ensures
        out == byte_offset(source@, index),
{
    proof {
        place_has_byte_offset(source@, index);
        places_stay_low(source@, index);
    }
    offset_of_location(source, lines + 1, columns + 1)
}

/// No more line ends, and no more characters in its line, stand before a
/// character than characters.
pub proof fn places_stay_low(text: Seq<char>, index: int)
    requires
        0 <= index,
    ensures
        lines_before(text, index) <= index,
        columns_before(text, index) <= index,
    decreases index,
{
    if index > 0 {
        places_stay_low(text, index - 1);
    }
}

/// The number of bytes that `c` takes in UTF-8.
pub fn char_width(c: char) -> (out: usize)
    ensures
        out == utf8_width(c),
        1 <= out <= 4,
{
    let code: u32 = c as u32;
    if code < 0x80 {
        1
    } else if code < 0x800 {
        2
    } else if code < 0x10000 {
        3
    } else {
        4
    }
}

/// The characters of `text`, in order.
pub fn chars_of(text: &str) -> (out: Vec<char>)
    ensures
        out@ == text@,
{
    let mut out: Vec<char> = Vec::new();
    let mut rest = text.chars();
    loop
        invariant
            out@ + rest.remaining() == text@,
            rest.obeys_prophetic_iter_laws(),
            rest.decrease() is Some,
        ensures
            out@ == text@,
        decreases rest.decrease()->0,
    {
        let ghost before = rest.remaining();
        match rest.next() {
            Some(c) => {
                out.push(c);
                proof {
                    assert(out@ + rest.remaining() =~= text@);
                }
            },
            None => {
                break ;
            },
        }
    }
    out
}

/// The text made of the characters `chars[from..to]`.
pub fn text_of(chars: &Vec<char>, from: usize, to: usize) -> (out: String)
    requires
        from <= to <= chars@.len(),
    ensures
        out@ == chars@.subrange(from as int, to as int),
{
    let mut out = String::new();
    let mut i: usize = from;
    while i < to
        invariant
            from <= i <= to <= chars@.len(),
            out@ == chars@.subrange(from as int, i as int),
        decreases to - i,
    {
        out.push(chars[i]);
        proof {
            assert(chars@.subrange(from as int, i as int).push(chars@[i as int])
                =~= chars@.subrange(from as int, i + 1));
        }
        i += 1;
    }
    out
}

} // verus!
