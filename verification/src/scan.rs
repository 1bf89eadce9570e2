//! A scan of the lines from first to last, and what it comes to.
//!
//! This is how a file is loaded: line by line, with one section open at a time. What a scan
//! ends in is a mapping that the file holds.

use crate::format::{
    gathers, gathers_from_default, header_name, holds, is_header, is_last_of_its_name,
    is_section, is_stray, open_section, section_names, well_formed,
};
use crate::parser::{is_default, LineParser};
use vstd::prelude::*;

verus! {

/// Where a scan stands between two lines.
#[verifier::ext_equal]
pub struct Scan<RowType> {
    /// The name of the open section; empty while none is open.
    pub section: Seq<char>,
    /// The record that the open section has gathered so far.
    pub record: RowType,
    /// The sections that were closed, each with its record.
    pub committed: Map<Seq<char>, RowType>,
}

/// Before the first line no section is open, none was closed, and the record is a default one.
pub open spec fn scan_starts<RowType: Default>(at: Scan<RowType>) -> bool {
    &&& at.section.len() == 0
    &&& is_default(at.record)
    &&& at.committed == Map::<Seq<char>, RowType>::empty()
}

/// One line may take a scan from `at` to `next`. An empty line changes nothing. A header
/// closes the open section under its name, over an earlier section of that name, and opens the
/// next one with a default record. A data line goes through the parser into the record of the
/// open section; with no section open there is no way on.
pub open spec fn scan_steps<RowType: Default, P: LineParser<RowType>>(
    parser: P,
    delimiter: Seq<char>,
    at: Scan<RowType>,
    line: Seq<char>,
    next: Scan<RowType>,
) -> bool {
    if line.len() == 0 {
        next == at
    } else if delimiter.is_prefix_of(line) {
        &&& next.section == header_name(delimiter, line)
        &&& if at.section.len() > 0 {
            next.committed == at.committed.insert(at.section, at.record) && is_default(
                next.record,
            )
        } else {
            next.committed == at.committed && next.record == at.record
        }
    } else {
        &&& at.section.len() > 0
        &&& next.section == at.section
        &&& next.committed == at.committed
        &&& parser.parses_to(at.section, line, at.record, next.record)
    }
}

/// A scan of `lines` may end at `end`.
pub open spec fn scans_to<RowType: Default, P: LineParser<RowType>>(
    parser: P,
    delimiter: Seq<char>,
    lines: Seq<Seq<char>>,
    end: Scan<RowType>,
) -> bool
    decreases lines.len(),
{
    if lines.len() == 0 {
        scan_starts(end)
    } else {
        exists|at: Scan<RowType>|
            scans_to(parser, delimiter, lines.drop_last(), at) && #[trigger] scan_steps(
                parser,
                delimiter,
                at,
                lines.last(),
                end,
            )
    }
}

/// The end of the file closes the section that is still open.
pub open spec fn finish<RowType>(at: Scan<RowType>) -> Map<Seq<char>, RowType> {
    if at.section.len() > 0 {
        at.committed.insert(at.section, at.record)
    } else {
        at.committed
    }
}

/// One more line after `lines`: a scan that may end at `at` may go on to `next`.
pub proof fn lemma_scan_push<RowType: Default, P: LineParser<RowType>>(
    parser: P,
    delimiter: Seq<char>,
    lines: Seq<Seq<char>>,
    at: Scan<RowType>,
    line: Seq<char>,
    next: Scan<RowType>,
)
    requires
        scans_to(parser, delimiter, lines, at),
        scan_steps(parser, delimiter, at, line, next),
    ensures
        scans_to(parser, delimiter, lines.push(line), next),
{
    assert(lines.push(line).drop_last() =~= lines);
    assert(lines.push(line).last() == line);
}

/// One more line after `lines`: a header names the open section anew, any other line leaves
/// it as it is.
pub proof fn lemma_open_section_push(delimiter: Seq<char>, lines: Seq<Seq<char>>, line: Seq<char>)
    ensures
        open_section(delimiter, lines.push(line)) == if is_header(delimiter, line) {
            header_name(delimiter, line)
        } else {
            open_section(delimiter, lines)
        },
{
    assert(lines.push(line).drop_last() =~= lines);
    assert(lines.push(line).last() == line);
}

/// The names of a file are those of the file without its last line, and the name on the last
/// line where that line is a header with a name.
pub proof fn lemma_section_names_step(delimiter: Seq<char>, lines: Seq<Seq<char>>)
    requires
        lines.len() > 0,
    ensures
        section_names(delimiter, lines) == if is_header(delimiter, lines.last()) && header_name(
            delimiter,
            lines.last(),
        ).len() > 0 {
            section_names(delimiter, lines.drop_last()).insert(
                header_name(delimiter, lines.last()),
            )
        } else {
            section_names(delimiter, lines.drop_last())
        },
{
    let rest = lines.drop_last();
    let last = lines.last();
    let names = section_names(delimiter, lines);
    let earlier = section_names(delimiter, rest);
    let expected = if is_header(delimiter, last) && header_name(delimiter, last).len() > 0 {
        earlier.insert(header_name(delimiter, last))
    } else {
        earlier
    };
    assert forall|name: Seq<char>| names.contains(name) == expected.contains(name) by {
        if names.contains(name) {
            let i = choose|i: int|
                0 <= i < lines.len() && is_header(delimiter, lines[i]) && #[trigger] header_name(
                    delimiter,
                    lines[i],
                ) == name;
            if i < lines.len() - 1 {
                assert(header_name(delimiter, rest[i]) == name);
            }
        }
        if earlier.contains(name) {
            let i = choose|i: int|
                0 <= i < rest.len() && is_header(delimiter, rest[i]) && #[trigger] header_name(
                    delimiter,
                    rest[i],
                ) == name;
            assert(header_name(delimiter, lines[i]) == name);
        }
        if is_header(delimiter, last) && name == header_name(delimiter, last) {
            assert(header_name(delimiter, lines[lines.len() - 1]) == name);
        }
    }
    assert(names =~= expected);
}

/// Where a scan may end: the section that it holds open is the one that the last header named,
/// the sections that it has closed or holds open are those that the headers named, and no line
/// before its end was stray.
pub proof fn lemma_scan_end<RowType: Default, P: LineParser<RowType>>(
    parser: P,
    delimiter: Seq<char>,
    lines: Seq<Seq<char>>,
    end: Scan<RowType>,
)
    requires
        scans_to(parser, delimiter, lines, end),
    ensures
        end.section == open_section(delimiter, lines),
        finish(end).dom() == section_names(delimiter, lines),
        well_formed(delimiter, lines),
    decreases lines.len(),
{
    if lines.len() == 0 {
        assert(finish(end).dom() =~= section_names(delimiter, lines));
    } else {
        let rest = lines.drop_last();
        let at = choose|at: Scan<RowType>|
            scans_to(parser, delimiter, rest, at) && #[trigger] scan_steps(
                parser,
                delimiter,
                at,
                lines.last(),
                end,
            );
        lemma_scan_end(parser, delimiter, rest, at);
        lemma_section_names_step(delimiter, lines);
        assert(finish(end).dom() =~= section_names(delimiter, lines));
        assert forall|i: int| !is_stray(delimiter, lines, i) by {
            if 0 <= i < lines.len() - 1 {
                assert(rest.take(i) =~= lines.take(i));
                assert(!is_stray(delimiter, rest, i));
            } else if i == lines.len() - 1 {
                assert(lines.take(i) =~= rest);
            }
        }
    }
}

/// While no section is open, the record of a scan is a default one.
pub proof fn lemma_closed_scan_is_blank<RowType: Default, P: LineParser<RowType>>(
    parser: P,
    delimiter: Seq<char>,
    lines: Seq<Seq<char>>,
    end: Scan<RowType>,
)
    requires
        scans_to(parser, delimiter, lines, end),
        end.section.len() == 0,
    ensures
        is_default(end.record),
    decreases lines.len(),
{
    if lines.len() > 0 {
        let at = choose|at: Scan<RowType>|
            scans_to(parser, delimiter, lines.drop_last(), at) && #[trigger] scan_steps(
                parser,
                delimiter,
                at,
                lines.last(),
                end,
            );
        if at.section.len() == 0 {
            lemma_closed_scan_is_blank(parser, delimiter, lines.drop_last(), at);
        }
    }
}

/// Where a scan may stand at line `upto`, within or after a section that is the last of its
/// name: within the section it is open, and its record is what the lines so far made of a
/// default record; after it the section is closed with what all its lines made of a default
/// record, and another section or none is open.
pub proof fn lemma_scan_of_section<RowType: Default, P: LineParser<RowType>>(
    parser: P,
    delimiter: Seq<char>,
    lines: Seq<Seq<char>>,
    header: int,
    end: int,
    upto: int,
    at: Scan<RowType>,
)
    requires
        is_section(delimiter, lines, header, end),
        is_last_of_its_name(delimiter, lines, header),
        header < upto <= lines.len(),
        scans_to(parser, delimiter, lines.take(upto), at),
    ensures
        ({
            let name = header_name(delimiter, lines[header]);
            if upto <= end {
                &&& at.section == name
                &&& gathers_from_default(parser, name, lines.subrange(header + 1, upto), at.record)
            } else {
                &&& at.section != name
                &&& at.committed.contains_key(name)
                &&& gathers_from_default(
                    parser,
                    name,
                    lines.subrange(header + 1, end),
                    at.committed[name],
                )
            }
        }),
    decreases upto,
{
    let name = header_name(delimiter, lines[header]);
    let prefix = lines.take(upto);
    let line = lines[upto - 1];
    assert(prefix.last() == line);
    assert(prefix.drop_last() =~= lines.take(upto - 1));
    let before = choose|before: Scan<RowType>|
        scans_to(parser, delimiter, prefix.drop_last(), before) && #[trigger] scan_steps(
            parser,
            delimiter,
            before,
            prefix.last(),
            at,
        );
    if upto == header + 1 {
        if before.section.len() == 0 {
            lemma_closed_scan_is_blank(parser, delimiter, prefix.drop_last(), before);
        }
        assert(is_default(at.record));
        assert(lines.subrange(header + 1, upto) =~= Seq::<Seq<char>>::empty());
        assert(gathers(parser, name, lines.subrange(header + 1, upto), at.record, at.record));
    } else {
        lemma_scan_of_section(parser, delimiter, lines, header, end, upto - 1, before);
        if upto <= end {
            let body = lines.subrange(header + 1, upto);
            assert(body.last() == line);
            assert(body.drop_last() =~= lines.subrange(header + 1, upto - 1));
            assert(!is_header(delimiter, lines[upto - 1]));
            let start = choose|start: RowType| #[trigger]
                is_default(start) && gathers(parser, name, body.drop_last(), start, before.record);
            assert(gathers(parser, name, body, start, at.record));
        } else if upto == end + 1 {
            assert(is_header(delimiter, lines[end]));
            assert(at.committed[name] == before.record);
        } else {
            if is_header(delimiter, line) {
                assert(header_name(delimiter, lines[upto - 1]) != name);
            }
        }
    }
}

/// What a scan of all lines ends in is a mapping that the file holds, and a file that can be
/// scanned to its end has no stray line.
pub proof fn lemma_scan_holds<RowType: Default, P: LineParser<RowType>>(
    parser: P,
    delimiter: Seq<char>,
    lines: Seq<Seq<char>>,
    end: Scan<RowType>,
)
    requires
        scans_to(parser, delimiter, lines, end),
    ensures
        holds(parser, delimiter, lines, finish(end)),
        well_formed(delimiter, lines),
{
    lemma_scan_end(parser, delimiter, lines, end);
    let sections = finish(end);
    assert(lines.take(lines.len() as int) =~= lines);
    assert forall|header: int, last: int|
        #[trigger] is_section(delimiter, lines, header, last) && is_last_of_its_name(
            delimiter,
            lines,
            header,
        ) implies gathers_from_default(
        parser,
        header_name(delimiter, lines[header]),
        lines.subrange(header + 1, last),
        sections[header_name(delimiter, lines[header])],
    ) by {
        lemma_scan_of_section(parser, delimiter, lines, header, last, lines.len() as int, end);
    }
}

} // verus!
