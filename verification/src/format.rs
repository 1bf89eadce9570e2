//! The sectioned text format, as a model over lines.
//!
//! A file is a sequence of lines. An empty line is skipped. A line that begins with the
//! delimiter is a header: it closes the section that is open and opens the one named by the
//! rest of the line (an empty rest opens none). Every other line is a data line, and belongs to
//! the section that is open; where none is open, the line is stray and the file is refused.
//! Of several sections with one name the last one counts.

use crate::parser::{is_default, LineParser};
use vstd::prelude::*;

verus! {

/// A non-empty line that begins with the delimiter.
pub open spec fn is_header(delimiter: Seq<char>, line: Seq<char>) -> bool {
    line.len() > 0 && delimiter.is_prefix_of(line)
}

/// A non-empty line that does not begin with the delimiter.
pub open spec fn is_data(delimiter: Seq<char>, line: Seq<char>) -> bool {
    line.len() > 0 && !delimiter.is_prefix_of(line)
}

/// What follows the delimiter on a header line, taken as it stands.
pub open spec fn header_name(delimiter: Seq<char>, line: Seq<char>) -> Seq<char> {
    line.skip(delimiter.len() as int)
}

/// The name on the last header among `lines`; empty where there is none. A section is open
/// after `lines` exactly when this name is not empty.
pub open spec fn open_section(delimiter: Seq<char>, lines: Seq<Seq<char>>) -> Seq<char>
    decreases lines.len(),
{
    if lines.len() == 0 {
        Seq::empty()
    } else if is_header(delimiter, lines.last()) {
        header_name(delimiter, lines.last())
    } else {
        open_section(delimiter, lines.drop_last())
    }
}

/// Line `i` is a data line with no section open before it.
pub open spec fn is_stray(delimiter: Seq<char>, lines: Seq<Seq<char>>, i: int) -> bool {
    &&& 0 <= i < lines.len()
    &&& is_data(delimiter, lines[i])
    &&& open_section(delimiter, lines.take(i)).len() == 0
}

/// No data line stands outside a section.
pub open spec fn well_formed(delimiter: Seq<char>, lines: Seq<Seq<char>>) -> bool {
    forall|i: int| !is_stray(delimiter, lines, i)
}

/// The names that the headers among `lines` give, the empty name left out.
pub open spec fn section_names(delimiter: Seq<char>, lines: Seq<Seq<char>>) -> Set<Seq<char>> {
    Set::new(
        |name: Seq<char>|
            name.len() > 0 && exists|i: int|
                0 <= i < lines.len() && is_header(delimiter, lines[i]) && #[trigger] header_name(
                    delimiter,
                    lines[i],
                ) == name,
    )
}

/// The number of headers among `lines` that give a name.
pub open spec fn named_header_count(delimiter: Seq<char>, lines: Seq<Seq<char>>) -> nat
    decreases lines.len(),
{
    if lines.len() == 0 {
        0
    } else if is_header(delimiter, lines.last()) && header_name(delimiter, lines.last()).len()
        > 0 {
        named_header_count(delimiter, lines.drop_last()) + 1
    } else {
        named_header_count(delimiter, lines.drop_last())
    }
}

/// No two headers among `lines` give the same name.
pub open spec fn names_differ(delimiter: Seq<char>, lines: Seq<Seq<char>>) -> bool {
    forall|i: int, j: int|
        0 <= i < j < lines.len() && is_header(delimiter, #[trigger] lines[i]) && is_header(
            delimiter,
            #[trigger] lines[j],
        ) ==> header_name(delimiter, lines[i]) != header_name(delimiter, lines[j])
}

/// The header on line `header` opens a section that runs up to line `end`: the header has a
/// name, no line between the two is a header, and line `end` is a header or the end of the
/// file.
pub open spec fn is_section(
    delimiter: Seq<char>,
    lines: Seq<Seq<char>>,
    header: int,
    end: int,
) -> bool {
    &&& 0 <= header < end <= lines.len()
    &&& is_header(delimiter, lines[header])
    &&& header_name(delimiter, lines[header]).len() > 0
    &&& forall|k: int| header < k < end ==> !is_header(delimiter, #[trigger] lines[k])
    &&& end < lines.len() ==> is_header(delimiter, lines[end])
}

/// No header after line `header` gives the name that the header on line `header` gives.
pub open spec fn is_last_of_its_name(
    delimiter: Seq<char>,
    lines: Seq<Seq<char>>,
    header: int,
) -> bool {
    forall|k: int|
        header < k < lines.len() && is_header(delimiter, #[trigger] lines[k]) ==> header_name(
            delimiter,
            lines[k],
        ) != header_name(delimiter, lines[header])
}

/// The lines of one section, taken in order, may turn the record `before` into `after`: each
/// data line goes through the parser, and empty lines count for nothing.
pub open spec fn gathers<RowType, P: LineParser<RowType>>(
    parser: P,
    section: Seq<char>,
    body: Seq<Seq<char>>,
    before: RowType,
    after: RowType,
) -> bool
    decreases body.len(),
{
    if body.len() == 0 {
        after == before
    } else if body.last().len() == 0 {
        gathers(parser, section, body.drop_last(), before, after)
    } else {
        exists|mid: RowType|
            gathers(parser, section, body.drop_last(), before, mid) && #[trigger] parser.parses_to(
                section,
                body.last(),
                mid,
                after,
            )
    }
}

/// `record` is what the lines of one section may make of a default record.
pub open spec fn gathers_from_default<RowType: Default, P: LineParser<RowType>>(
    parser: P,
    section: Seq<char>,
    body: Seq<Seq<char>>,
    record: RowType,
) -> bool {
    exists|start: RowType| #[trigger]
        is_default(start) && gathers(parser, section, body, start, record)
}

/// A file of these lines may hold `sections`: there is one section for each name that a
/// header gives, and the record under a name is what the lines of the last section of that
/// name make of a default record.
pub open spec fn holds<RowType: Default, P: LineParser<RowType>>(
    parser: P,
    delimiter: Seq<char>,
    lines: Seq<Seq<char>>,
    sections: Map<Seq<char>, RowType>,
) -> bool {
    &&& sections.dom() == section_names(delimiter, lines)
    &&& forall|header: int, end: int|
        #[trigger] is_section(delimiter, lines, header, end) && is_last_of_its_name(
            delimiter,
            lines,
            header,
        ) ==> gathers_from_default(
            parser,
            header_name(delimiter, lines[header]),
            lines.subrange(header + 1, end),
            sections[header_name(delimiter, lines[header])],
        )
}

/// The rest of `line` after `prefix`, where `line` begins with `prefix`.
pub fn strip_prefix<'a>(line: &'a str, prefix: &str) -> (rest: Option<&'a str>)
    ensures
        match rest {
            Some(r) => prefix@.is_prefix_of(line@) && r@ == line@.skip(prefix@.len() as int),
            None => !prefix@.is_prefix_of(line@),
        },
{
    let width = prefix.unicode_len();
    let length = line.unicode_len();
    if width > length {
        return None;
    }
    let mut i: usize = 0;
    while i < width
        invariant
            i <= width <= length,
            width == prefix@.len(),
            length == line@.len(),
            forall|j: int| 0 <= j < i ==> prefix@[j] == line@[j],
        decreases width - i,
    {
        if prefix.get_char(i) != line.get_char(i) {
            assert(prefix@[i as int] != line@.subrange(0, width as int)[i as int]);
            return None;
        }
        i += 1;
    }
    assert(prefix@ =~= line@.subrange(0, width as int));
    Some(line.substring_char(width, length))
}

} // verus!
