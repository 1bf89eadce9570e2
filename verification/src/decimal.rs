//! Unsigned decimal numbers in text, and a line parser that keeps the last number of a section.

use crate::format::{gathers, gathers_from_default, holds};
use crate::laws::law_one_mapping;
use crate::parser::{has_canonical_default, is_default, is_single_valued, LineParser};
use vstd::prelude::*;

verus! {

/// One of the characters `0` to `9`.
pub open spec fn is_digit(c: char) -> bool {
    '0' <= c <= '9'
}

/// What a digit counts for: `0` for zero up to `9` for nine.
pub open spec fn digit_value(c: char) -> int {
    c as int - '0' as int
}

/// Every character is a digit.
pub open spec fn all_digits(text: Seq<char>) -> bool {
    forall|i: int| 0 <= i < text.len() ==> is_digit(#[trigger] text[i])
}

/// The number that a sequence of digits writes in base ten; zero for the empty sequence.
pub open spec fn decimal_value(digits: Seq<char>) -> int
    decreases digits.len(),
{
    if digits.len() == 0 {
        0
    } else {
        10 * decimal_value(digits.drop_last()) + digit_value(digits.last())
    }
}

/// The text without the one plus sign that may lead it.
pub open spec fn unsigned_part(text: Seq<char>) -> Seq<char> {
    if text.len() > 0 && text[0] == '+' {
        text.skip(1)
    } else {
        text
    }
}

/// The number that `text` writes: an optional plus sign, then one digit or more and nothing
/// else, with a value that a `u32` holds. Any other text writes no number.
pub open spec fn decimal_u32(text: Seq<char>) -> Option<u32> {
    let digits = unsigned_part(text);
    if digits.len() > 0 && all_digits(digits) && decimal_value(digits) <= u32::MAX {
        Some(decimal_value(digits) as u32)
    } else {
        None
    }
}

/// Digits that continue a number do not make it smaller.
pub proof fn lemma_decimal_value_grows(digits: Seq<char>, k: int)
    requires
        all_digits(digits),
        0 <= k <= digits.len(),
    ensures
        0 <= decimal_value(digits.take(k)) <= decimal_value(digits),
    decreases digits.len() - k,
{
    if k == digits.len() {
        assert(digits.take(k) =~= digits);
        lemma_decimal_value_nonnegative(digits);
    } else {
        lemma_decimal_value_grows(digits, k + 1);
        assert(digits.take(k + 1).drop_last() =~= digits.take(k));
        assert(is_digit(digits.take(k + 1).last()));
        assert(all_digits(digits.take(k))) by {
            assert forall|i: int| 0 <= i < digits.take(k).len() implies is_digit(
                #[trigger] digits.take(k)[i],
            ) by {
                assert(digits.take(k)[i] == digits[i]);
            }
        }
        lemma_decimal_value_nonnegative(digits.take(k));
    }
}

/// A sequence of digits writes no negative number.
pub proof fn lemma_decimal_value_nonnegative(digits: Seq<char>)
    requires
        all_digits(digits),
    ensures
        0 <= decimal_value(digits),
    decreases digits.len(),
{
    if digits.len() > 0 {
        assert(is_digit(digits.last()));
        assert(all_digits(digits.drop_last())) by {
            assert forall|i: int| 0 <= i < digits.drop_last().len() implies is_digit(
                #[trigger] digits.drop_last()[i],
            ) by {
                assert(digits.drop_last()[i] == digits[i]);
            }
        }
        lemma_decimal_value_nonnegative(digits.drop_last());
    }
}

/// Reads `text` as an unsigned decimal number.
pub fn parse_decimal_u32(text: &str) -> (number: Option<u32>)
    ensures
        number == decimal_u32(text@),
{
    let ghost digits = unsigned_part(text@);
    if !text.is_ascii() {
        proof {
            let k = choose|k: int|
                0 <= k < text@.len() && !('\0' <= #[trigger] text@[k] <= '\u{7f}');
            assert(!is_digit(text@[k]));
            assert(text@[k] != '+');
            if text@[0] == '+' {
                assert(digits[k - 1] == text@[k]);
            }
        }
        return None;
    }
    let bytes = text.as_bytes();
    proof {
        vstd::string::is_ascii_spec_bytes(text);
    }
    let length = bytes.len();
    let start: usize = if length > 0 && bytes[0] == 43 {
        1
    } else {
        0
    };
    assert(digits =~= text@.skip(start as int));
    if start == length {
        return None;
    }
    let mut value: u32 = 0;
    let mut i: usize = start;
    while i < length
        invariant
            start <= i <= length,
            length == text@.len(),
            bytes@.len() == length,
            forall|j: int| 0 <= j < length ==> bytes@[j] == text@[j] as u8,
            vstd::utf8::is_ascii_chars(text@),
            digits == unsigned_part(text@),
            digits == text@.skip(start as int),
            all_digits(digits.take(i - start)),
            value == decimal_value(digits.take(i - start)),
        decreases length - i,
    {
        let byte = bytes[i];
        let ghost c = text@[i as int];
        assert(digits[i - start] == c);
        assert(byte == c as u8 && '\0' <= c <= '\u{7f}');
        if byte < 48 || byte > 57 {
            assert(!is_digit(c));
            return None;
        }
        let ghost longer = digits.take(i - start + 1);
        proof {
            assert(longer.drop_last() =~= digits.take(i - start));
            assert(longer.last() == c);
            assert(all_digits(longer)) by {
                assert forall|j: int| 0 <= j < longer.len() implies is_digit(
                    #[trigger] longer[j],
                ) by {
                    if j < i - start {
                        assert(longer[j] == digits.take(i - start)[j]);
                    }
                }
            }
        }
        let next: u64 = (value as u64) * 10 + ((byte - 48) as u64);
        assert(next == decimal_value(longer));
        if next > 0xffff_ffff {
            proof {
                if all_digits(digits) {
                    lemma_decimal_value_grows(digits, i - start + 1);
                }
            }
            return None;
        }
        value = next as u32;
        i += 1;
    }
    assert(digits.take(i - start) =~= digits);
    Some(value)
}

/// Reads a data line as an unsigned decimal number and puts the number in place of the
/// record. A line that writes no such number leaves the record as it is.
pub fn my_parse(_section_header: &String, row: &String, current: &mut u32)
    ensures
        *final(current) == match decimal_u32(row@) {
            Some(number) => number,
            None => *old(current),
        },
{
    match parse_decimal_u32(row.as_str()) {
        Some(num) => {
            *current = num;
        },
        None => {},
    }
}

/// The line parser whose record is the last number among the data lines of a section.
#[derive(Clone, Copy, Debug)]
pub struct DecimalParser;

impl LineParser<u32> for DecimalParser {
    open spec fn parses_to(&self, section: Seq<char>, line: Seq<char>, before: u32, after: u32) -> bool {
        after == match decimal_u32(line) {
            Some(number) => number,
            None => before,
        }
    }

    fn parse(&self, section: &String, line: &String, record: &mut u32) {
        my_parse(section, line, record)
    }
}

/// The last number that a line among `lines` writes; `otherwise` where no line writes one.
pub open spec fn last_number_or(otherwise: u32, lines: Seq<Seq<char>>) -> u32
    decreases lines.len(),
{
    if lines.len() == 0 {
        otherwise
    } else {
        match decimal_u32(lines.last()) {
            Some(number) => number,
            None => last_number_or(otherwise, lines.drop_last()),
        }
    }
}

/// What the lines of a section make of a record with the decimal parser: the last number
/// among them, and the record as it was where none of them writes a number.
pub proof fn lemma_decimal_gathers(
    section: Seq<char>,
    body: Seq<Seq<char>>,
    before: u32,
    after: u32,
)
    requires
        gathers(DecimalParser, section, body, before, after),
    ensures
        after == last_number_or(before, body),
    decreases body.len(),
{
    if body.len() > 0 {
        if body.last().len() == 0 {
            lemma_decimal_gathers(section, body.drop_last(), before, after);
        } else {
            let mid = choose|mid: u32|
                gathers(DecimalParser, section, body.drop_last(), before, mid)
                    && #[trigger] DecimalParser.parses_to(section, body.last(), mid, after);
            lemma_decimal_gathers(section, body.drop_last(), before, mid);
        }
    }
}

/// With the decimal parser the record of a section is the last number among its lines, and
/// zero where it has none.
pub proof fn law_decimal_record_is_last_number(
    section: Seq<char>,
    body: Seq<Seq<char>>,
    record: u32,
)
    requires
        gathers_from_default(DecimalParser, section, body, record),
    ensures
        record == last_number_or(0, body),
{
    let start = choose|start: u32| #[trigger]
        is_default(start) && gathers(DecimalParser, section, body, start, record);
    lemma_decimal_gathers(section, body, start, record);
}

/// With the decimal parser the lines of a file decide its mapping: a file holds no two
/// mappings.
pub proof fn law_decimal_mapping_is_decided(
    delimiter: Seq<char>,
    lines: Seq<Seq<char>>,
    one: Map<Seq<char>, u32>,
    other: Map<Seq<char>, u32>,
)
    requires
        holds(DecimalParser, delimiter, lines, one),
        holds(DecimalParser, delimiter, lines, other),
    ensures
        one == other,
{
    assert(is_single_valued(DecimalParser));
    assert(has_canonical_default::<u32>());
    law_one_mapping(DecimalParser, delimiter, lines, one, other);
}

} // verus!
