//! Text as bytes: splitting at a separator, lines, and decimal numbers.

use vstd::prelude::*;
use vstd::utf8::{
    decode_utf8, is_char_boundary, is_char_boundary_iff_not_is_continuation_byte, valid_utf8,
    valid_utf8_split,
};

verus! {

/// The index of the first byte of a text that is the separator, or the
/// length of the text where none is.
pub open spec fn first_index(text: Seq<u8>, separator: u8) -> int
    decreases text.len(),
{
    if text.len() == 0 || text[0] == separator {
        0
    } else {
        1 + first_index(text.drop_first(), separator)
    }
}

/// The pieces of a text between the separators: one more than there are
/// separators.
pub open spec fn split(text: Seq<u8>, separator: u8) -> Seq<Seq<u8>>
    decreases text.len(),
{
    let index = first_index(text, separator);
    if 0 <= index < text.len() {
        seq![text.subrange(0, index)] + split(text.skip(index + 1), separator)
    } else {
        seq![text]
    }
}

/// A line without the carriage return at its end.
pub open spec fn trimmed(line: Seq<u8>) -> Seq<u8> {
    if line.len() > 0 && line.last() == 13 {
        line.drop_last()
    } else {
        line
    }
}

/// The lines of a text.  A line ends at a line feed, or at a carriage
/// return and a line feed, which are not part of it; the last line may end
/// with the text, and then keeps a carriage return at its end.  Behind the
/// last line feed there is no line where there is no byte.
pub open spec fn lines(text: Seq<u8>) -> Seq<Seq<u8>> {
    let pieces = split(text, 10);
    let kept = if pieces.last().len() == 0 {
        pieces.drop_last()
    } else {
        pieces
    };
    Seq::new(
        kept.len(),
        |i: int|
            if i < pieces.len() - 1 {
                trimmed(kept[i])
            } else {
                kept[i]
            },
    )
}

/// The number that a text stands for: decimal digits, with or without a
/// plus sign in front of them.
pub open spec fn number(text: Seq<u8>) -> Option<nat> {
    if text.len() > 0 && text[0] == 43 {
        decimal(text.drop_first())
    } else {
        decimal(text)
    }
}

/// The number that a text of decimal digits stands for; nothing for an
/// empty text and for a text with another byte.
pub open spec fn decimal(text: Seq<u8>) -> Option<nat>
    decreases text.len(),
{
    if text.len() == 0 {
        None
    } else if !(48 <= text.last() <= 57) {
        None
    } else if text.len() == 1 {
        Some((text.last() - 48) as nat)
    } else {
        match decimal(text.drop_last()) {
            Some(number) => Some(number * 10 + (text.last() - 48) as nat),
            None => None,
        }
    }
}

/// The pieces as models of byte vectors.
pub open spec fn texts(pieces: Seq<Vec<u8>>) -> Seq<Seq<u8>> {
    Seq::new(pieces.len(), |i: int| pieces[i]@)
}

/// The first separator is found where no byte in front is one.
proof fn lemma_first_index(text: Seq<u8>, separator: u8, index: int)
    requires
        0 <= index <= text.len(),
        forall|i: int| 0 <= i < index ==> text[i] != separator,
        index < text.len() ==> text[index] == separator,
    ensures
        first_index(text, separator) == index,
    decreases index,
{
    if index > 0 {
        let rest = text.drop_first();
        assert forall|i: int| 0 <= i < index - 1 implies rest[i] != separator by {
            assert(rest[i] == text[i + 1]);
        }
        lemma_first_index(rest, separator, index - 1);
    }
}

/// Splits a text at a separator.
pub fn split_text(text: &[u8], separator: u8) -> (pieces: Vec<Vec<u8>>)
    ensures
        texts(pieces@) == split(text@, separator),
        pieces.len() >= 1,
{
    let mut pieces: Vec<Vec<u8>> = Vec::new();
    let mut piece: Vec<u8> = Vec::new();
    let mut start: usize = 0;
    let mut index: usize = 0;

    proof {
        assert(text@.skip(0) =~= text@);
        assert(texts(pieces@) + split(text@.skip(0), separator) =~= split(text@, separator));
        assert(piece@ =~= text@.subrange(0, 0));
    }
    while index < text.len()
        invariant
            start <= index <= text.len(),
            piece@ == text@.subrange(start as int, index as int),
            forall|i: int| start <= i < index ==> text@[i] != separator,
            texts(pieces@) + split(text@.skip(start as int), separator) == split(text@, separator),
        decreases text.len() - index,
    {
        if text[index] == separator {
            let ghost rest = text@.skip(start as int);
            let ghost done = pieces@;
            let ghost found = piece@;

            proof {
                assert forall|i: int| 0 <= i < index - start implies rest[i] != separator by {
                    assert(rest[i] == text@[start + i]);
                }
                lemma_first_index(rest, separator, index - start);
                assert(rest.subrange(0, index - start) =~= piece@);
                assert(rest.skip(index - start + 1) =~= text@.skip(index + 1));
            }
            pieces.push(piece);
            piece = Vec::new();
            start = index + 1;
            proof {
                assert(texts(pieces@) =~= texts(done) + seq![found]);
                assert(texts(pieces@) + split(text@.skip(start as int), separator) =~= texts(done)
                    + split(rest, separator));
                assert(piece@ =~= text@.subrange(start as int, start as int));
            }
        } else {
            let ghost before = piece@;

            piece.push(text[index]);
            proof {
                assert(piece@ =~= text@.subrange(start as int, index + 1));
            }
        }
        index = index + 1;
    }
    let ghost rest = text@.skip(start as int);
    let ghost done = pieces@;

    proof {
        assert forall|i: int| 0 <= i < rest.len() implies rest[i] != separator by {
            assert(rest[i] == text@[start + i]);
        }
        lemma_first_index(rest, separator, rest.len() as int);
        assert(piece@ =~= rest);
    }
    pieces.push(piece);
    proof {
        assert(texts(pieces@) =~= texts(done) + seq![rest]);
    }
    pieces
}

/// Splits a text into its lines.
pub fn split_lines(text: &[u8]) -> (result: Vec<Vec<u8>>)
    ensures
        texts(result@) == lines(text@),
{
    let mut pieces = split_text(text, 10);
    let ghost all = texts(pieces@);
    let total = pieces.len();

    if pieces[pieces.len() - 1].len() == 0 {
        pieces.pop();
    }
    let ghost kept = texts(pieces@);
    let mut result: Vec<Vec<u8>> = Vec::new();
    let mut index: usize = 0;

    proof {
        assert(total == split(text@, 10).len());
        assert(kept =~= if all.last().len() == 0 {
            all.drop_last()
        } else {
            all
        });
    }
    while index < pieces.len()
        invariant
            index <= pieces.len(),
            kept == texts(pieces@),
            result.len() == index,
            forall|i: int|
                0 <= i < index ==> #[trigger] result[i]@ == if i < total - 1 {
                    trimmed(kept[i])
                } else {
                    kept[i]
                },
        decreases pieces.len() - index,
    {
        let line = &pieces[index];
        let length = if index + 1 < total && line.len() > 0 && line[line.len() - 1] == 13 {
            line.len() - 1
        } else {
            line.len()
        };
        let mut copy: Vec<u8> = Vec::new();
        let mut position: usize = 0;

        while position < length
            invariant
                position <= length <= line.len(),
                copy@ == line@.subrange(0, position as int),
            decreases length - position,
        {
            copy.push(line[position]);
            position = position + 1;
        }
        proof {
            assert(kept[index as int] == line@);
            assert(copy@ =~= if index < total - 1 {
                trimmed(line@)
            } else {
                line@
            });
        }
        result.push(copy);
        index = index + 1;
    }
    proof {
        assert(texts(result@) =~= lines(text@));
    }
    result
}

/// Reads a number of sixty-four bits: decimal digits, with or without a
/// plus sign in front of them.
pub fn parse_number(text: &[u8]) -> (result: Option<u64>)
    ensures
        result == match number(text@) {
            Some(number) => if number <= u64::MAX {
                Some(number as u64)
            } else {
                None
            },
            None => None,
        },
{
    if text.len() > 0 && text[0] == 43 {
        let mut rest: Vec<u8> = Vec::new();
        let mut index: usize = 1;

        while index < text.len()
            invariant
                1 <= index <= text.len(),
                rest@ == text@.subrange(1, index as int),
            decreases text.len() - index,
        {
            rest.push(text[index]);
            index = index + 1;
        }
        assert(rest@ =~= text@.drop_first());
        parse_decimal(rest.as_slice())
    } else {
        parse_decimal(text)
    }
}

/// Reads a decimal number of sixty-four bits.
pub fn parse_decimal(text: &[u8]) -> (result: Option<u64>)
    ensures
        result == match decimal(text@) {
            Some(number) => if number <= u64::MAX {
                Some(number as u64)
            } else {
                None
            },
            None => None,
        },
{
    if text.len() == 0 {
        return None;
    }
    let mut number: u64 = 0;
    let mut index: usize = 0;

    while index < text.len()
        invariant
            index <= text.len(),
            index > 0 ==> decimal(text@.subrange(0, index as int)) == Some(number as nat),
            index == 0 ==> number == 0,
        decreases text.len() - index,
    {
        let byte = text[index];
        let ghost front = text@.subrange(0, index + 1);

        proof {
            assert(front.last() == byte);
            assert(front.drop_last() =~= text@.subrange(0, index as int));
        }
        if byte < 48 || byte > 57 {
            proof {
                lemma_decimal_fails(text@, index as int);
            }
            return None;
        }
        let digit = (byte - 48) as u64;

        if number > (u64::MAX - digit) / 10 {
            proof {
                lemma_decimal_grows(text@, index + 1);
                assert(decimal(front) == Some((number * 10 + digit) as nat));
            }
            return None;
        }
        number = number * 10 + digit;
        index = index + 1;
    }
    proof {
        assert(text@.subrange(0, index as int) =~= text@);
    }
    Some(number)
}

/// A text with a byte that is no digit stands for no number.
proof fn lemma_decimal_fails(text: Seq<u8>, index: int)
    requires
        0 <= index < text.len(),
        !(48 <= text[index] <= 57),
    ensures
        decimal(text) is None,
    decreases text.len(),
{
    if index < text.len() - 1 {
        lemma_decimal_fails(text.drop_last(), index);
    }
}

/// The number that a text stands for is no less than the number that a
/// front of it stands for.
proof fn lemma_decimal_grows(text: Seq<u8>, length: int)
    requires
        0 < length <= text.len(),
    ensures
        match (decimal(text), decimal(text.subrange(0, length))) {
            (Some(all), Some(front)) => front <= all,
            _ => true,
        },
    decreases text.len(),
{
    if length < text.len() {
        let shorter = text.drop_last();
        assert(shorter.subrange(0, length) =~= text.subrange(0, length));
        lemma_decimal_grows(shorter, length);
    } else {
        assert(text.subrange(0, length) =~= text);
    }
}

/// The characters of pieces of text in UTF-8.
pub open spec fn decoded(pieces: Seq<Seq<u8>>) -> Seq<Seq<char>> {
    Seq::new(pieces.len(), |i: int| decode_utf8(pieces[i]))
}

/// Each piece is text in UTF-8.
pub open spec fn all_valid(pieces: Seq<Seq<u8>>) -> bool {
    forall|i: int| 0 <= i < pieces.len() ==> valid_utf8(#[trigger] pieces[i])
}

/// The first separator is in the text, or there is none.
proof fn lemma_first_index_found(text: Seq<u8>, separator: u8)
    ensures
        0 <= first_index(text, separator) <= text.len(),
        first_index(text, separator) < text.len() ==> text[first_index(text, separator)]
            == separator,
    decreases text.len(),
{
    if !(text.len() == 0 || text[0] == separator) {
        lemma_first_index_found(text.drop_first(), separator);
    }
}

/// Text in UTF-8 that is cut at a byte below 128 is text in UTF-8 on both
/// sides of the byte: such a byte is a character of its own.
pub proof fn lemma_cut_valid(text: Seq<u8>, index: int)
    requires
        valid_utf8(text),
        0 <= index < text.len(),
        text[index] < 128,
    ensures
        valid_utf8(text.subrange(0, index)),
        valid_utf8(text.skip(index + 1)),
{
    is_char_boundary_iff_not_is_continuation_byte(text, index);
    assert(is_char_boundary(text, index));
    valid_utf8_split(text, index);
    let rest = text.subrange(index, text.len() as int);
    assert(rest[0] == text[index]);
    assert(vstd::utf8::pop_first_scalar(rest) =~= text.skip(index + 1));
}

/// The pieces of text in UTF-8 between separators below 128 are text in
/// UTF-8.
pub proof fn lemma_split_valid(text: Seq<u8>, separator: u8)
    requires
        valid_utf8(text),
        separator < 128,
    ensures
        all_valid(split(text, separator)),
    decreases text.len(),
{
    let index = first_index(text, separator);
    lemma_first_index_found(text, separator);
    if index < text.len() {
        lemma_cut_valid(text, index);
        lemma_split_valid(text.skip(index + 1), separator);
        let rest = split(text.skip(index + 1), separator);
        assert forall|i: int| 0 <= i < split(text, separator).len() implies valid_utf8(
            #[trigger] split(text, separator)[i],
        ) by {
            if i > 0 {
                assert(split(text, separator)[i] == rest[i - 1]);
            }
        }
    }
}

/// The lines of text in UTF-8 are text in UTF-8.
pub proof fn lemma_lines_valid(text: Seq<u8>)
    requires
        valid_utf8(text),
    ensures
        all_valid(lines(text)),
{
    let pieces = split(text, 10);
    lemma_split_valid(text, 10);
    assert forall|i: int| 0 <= i < lines(text).len() implies valid_utf8(
        #[trigger] lines(text)[i],
    ) by {
        let line = pieces[i];
        assert(valid_utf8(line));
        if line.len() > 0 && line.last() == 13 {
            lemma_cut_valid(line, line.len() - 1);
            assert(line.subrange(0, line.len() - 1) =~= line.drop_last());
        }
    }
}

/// Makes a string of text in UTF-8.
pub fn text_of(bytes: &[u8]) -> (result: String)
    requires
        valid_utf8(bytes@),
    ensures
        result@ == decode_utf8(bytes@),
{
    match String::from_utf8(vstd::slice::slice_to_vec(bytes)) {
        Ok(string) => string,
        Err(_) => String::new(),
    }
}

} // verus!
