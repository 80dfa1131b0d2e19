//! Writing text: strings that grow, and numbers in decimal.

use vstd::prelude::*;

verus! {

/// `String::push` puts a character at the end of a string.
pub assume_specification[ String::push ](string: &mut String, character: char)
    ensures
        final(string)@ == old(string)@.push(character),
;

/// `String::push_str` puts the characters of a string slice at the end of a
/// string.
pub assume_specification[ String::push_str ](string: &mut String, other: &str)
    ensures
        final(string)@ == old(string)@ + other@,
;

/// The error of `String::from_utf8`.
#[verifier::external_type_specification]
#[verifier::external_body]
pub struct ExFromUtf8Error(std::string::FromUtf8Error);

/// `String::from_utf8` makes a string of bytes that are text in UTF-8, the
/// string of the characters that they stand for, and fails for bytes that
/// are not.
pub assume_specification[ String::from_utf8 ](bytes: Vec<u8>) -> (result: Result<
    String,
    std::string::FromUtf8Error,
>)
    ensures
        result is Ok <==> vstd::utf8::valid_utf8(bytes@),
        result matches Ok(string) ==> string@ == vstd::utf8::decode_utf8(bytes@),
;

/// The character of a decimal digit.
pub open spec fn digit(number: nat) -> char {
    (48 + number % 10) as u8 as char
}

/// The decimal digits of a number as characters.
pub open spec fn decimal(number: nat) -> Seq<char>
    decreases number,
{
    if number < 10 {
        seq![digit(number)]
    } else {
        decimal(number / 10).push(digit(number))
    }
}

/// Writes a number in decimal at the end of a string.
pub fn push_decimal(string: &mut String, number: u64)
    ensures
        final(string)@ == old(string)@ + decimal(number as nat),
    decreases number,
{
    if number >= 10 {
        push_decimal(string, number / 10);
    }
    string.push((48 + number % 10) as u8 as char);
    assert(string@ =~= old(string)@ + decimal(number as nat));
}

/// Writes two spaces for each level of an indent at the end of a string.
pub fn push_indent(string: &mut String, indent: usize)
    ensures
        final(string)@ == old(string)@ + indented(indent as nat),
{
    let mut level: usize = 0;

    assert(string@ =~= old(string)@ + indented(0));
    while level < indent
        invariant
            level <= indent,
            string@ == old(string)@ + indented(level as nat),
        decreases indent - level,
    {
        string.push(' ');
        string.push(' ');
        level = level + 1;
        assert(string@ =~= old(string)@ + indented(level as nat));
    }
}

/// Two spaces for each level of an indent.
pub open spec fn indented(indent: nat) -> Seq<char>
    decreases indent,
{
    if indent == 0 {
        Seq::empty()
    } else {
        indented((indent - 1) as nat).push(' ').push(' ')
    }
}

} // verus!
