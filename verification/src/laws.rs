//! What holds of every file and of every run of polls.

use crate::format::{
    gathers, gathers_from_default, header_name, holds, is_header, is_last_of_its_name,
    is_section, named_header_count, names_differ, section_names,
};
use crate::parser::{has_canonical_default, is_default, is_single_valued, LineParser};
use crate::scan::lemma_section_names_step;
use crate::timestamp::law_timestamps_are_totally_ordered;
use crate::watcher::{refreshes_to, verdict, FileProbe, HotloadError, Loaded};
use vstd::prelude::*;

verus! {

/// A file has no more section names than headers with a name, and as many where no two
/// headers give the same name.
pub proof fn lemma_section_names_count(delimiter: Seq<char>, lines: Seq<Seq<char>>)
    ensures
        section_names(delimiter, lines).finite(),
        section_names(delimiter, lines).len() <= named_header_count(delimiter, lines),
        names_differ(delimiter, lines) ==> section_names(delimiter, lines).len()
            == named_header_count(delimiter, lines),
    decreases lines.len(),
{
    if lines.len() == 0 {
        assert(section_names(delimiter, lines) =~= Set::<Seq<char>>::empty());
    } else {
        let rest = lines.drop_last();
        let name = header_name(delimiter, lines.last());
        lemma_section_names_count(delimiter, rest);
        lemma_section_names_step(delimiter, lines);
        if names_differ(delimiter, lines) {
            assert forall|i: int, j: int|
                0 <= i < j < rest.len() && is_header(delimiter, #[trigger] rest[i]) && is_header(
                    delimiter,
                    #[trigger] rest[j],
                ) implies header_name(delimiter, rest[i]) != header_name(delimiter, rest[j]) by {
                assert(rest[i] == lines[i] && rest[j] == lines[j]);
            }
            if is_header(delimiter, lines.last()) && section_names(delimiter, rest).contains(
                name,
            ) {
                let i = choose|i: int|
                    0 <= i < rest.len() && is_header(delimiter, rest[i]) && #[trigger] header_name(
                        delimiter,
                        rest[i],
                    ) == name;
                assert(rest[i] == lines[i]);
                assert(lines[lines.len() - 1] == lines.last());
            }
        }
    }
}

/// The sections that a file holds are the sections that its headers name: each name once,
/// however often a header repeats it, and no section for a header without a name. So the
/// number of sections is the number of different names on the headers.
pub proof fn law_sections_are_header_names<RowType: Default, P: LineParser<RowType>>(
    parser: P,
    delimiter: Seq<char>,
    lines: Seq<Seq<char>>,
    sections: Map<Seq<char>, RowType>,
)
    requires
        holds(parser, delimiter, lines, sections),
    ensures
        sections.dom() == section_names(delimiter, lines),
        sections.dom().finite(),
        sections.len() == section_names(delimiter, lines).len(),
        forall|i: int|
            0 <= i < lines.len() && is_header(delimiter, lines[i]) && header_name(
                delimiter,
                lines[i],
            ).len() > 0 ==> sections.contains_key(#[trigger] header_name(delimiter, lines[i])),
{
    lemma_section_names_count(delimiter, lines);
}

/// The number of sections that a file holds is at most the number of its headers with a name,
/// and is that number where no two headers give the same name: a header that repeats a name
/// adds no section.
pub proof fn law_section_count<RowType: Default, P: LineParser<RowType>>(
    parser: P,
    delimiter: Seq<char>,
    lines: Seq<Seq<char>>,
    sections: Map<Seq<char>, RowType>,
)
    requires
        holds(parser, delimiter, lines, sections),
    ensures
        sections.len() <= named_header_count(delimiter, lines),
        names_differ(delimiter, lines) ==> sections.len() == named_header_count(delimiter, lines),
{
    lemma_section_names_count(delimiter, lines);
}

/// The last header that gives `name`.
pub proof fn lemma_last_header_named(
    delimiter: Seq<char>,
    lines: Seq<Seq<char>>,
    name: Seq<char>,
) -> (header: int)
    requires
        section_names(delimiter, lines).contains(name),
    ensures
        0 <= header < lines.len(),
        is_header(delimiter, lines[header]),
        header_name(delimiter, lines[header]) == name,
        is_last_of_its_name(delimiter, lines, header),
    decreases lines.len(),
{
    if is_header(delimiter, lines.last()) && header_name(delimiter, lines.last()) == name {
        lines.len() - 1
    } else {
        let rest = lines.drop_last();
        lemma_section_names_step(delimiter, lines);
        let header = lemma_last_header_named(delimiter, rest, name);
        assert(rest[header] == lines[header]);
        assert forall|k: int|
            header < k < lines.len() && is_header(
                delimiter,
                #[trigger] lines[k],
            ) implies header_name(delimiter, lines[k]) != header_name(
            delimiter,
            lines[header],
        ) by {
            if k < lines.len() - 1 {
                assert(rest[k] == lines[k]);
            }
        }
        header
    }
}

/// The first header from line `from` on, or the end of the file.
pub proof fn lemma_next_header(
    delimiter: Seq<char>,
    lines: Seq<Seq<char>>,
    from: int,
) -> (end: int)
    requires
        0 <= from <= lines.len(),
    ensures
        from <= end <= lines.len(),
        forall|k: int| from <= k < end ==> !is_header(delimiter, #[trigger] lines[k]),
        end < lines.len() ==> is_header(delimiter, lines[end]),
    decreases lines.len() - from,
{
    if from == lines.len() || is_header(delimiter, lines[from]) {
        from
    } else {
        lemma_next_header(delimiter, lines, from + 1)
    }
}

/// With a parser that leaves one outcome for each line, the lines of a section make one
/// record of a given one.
pub proof fn lemma_gathers_determined<RowType, P: LineParser<RowType>>(
    parser: P,
    section: Seq<char>,
    body: Seq<Seq<char>>,
    start: RowType,
    one: RowType,
    other: RowType,
)
    requires
        is_single_valued(parser),
        gathers(parser, section, body, start, one),
        gathers(parser, section, body, start, other),
    ensures
        one == other,
    decreases body.len(),
{
    if body.len() > 0 {
        if body.last().len() == 0 {
            lemma_gathers_determined(parser, section, body.drop_last(), start, one, other);
        } else {
            let mid_one = choose|mid: RowType|
                gathers(parser, section, body.drop_last(), start, mid)
                    && #[trigger] parser.parses_to(section, body.last(), mid, one);
            let mid_other = choose|mid: RowType|
                gathers(parser, section, body.drop_last(), start, mid)
                    && #[trigger] parser.parses_to(section, body.last(), mid, other);
            lemma_gathers_determined(
                parser,
                section,
                body.drop_last(),
                start,
                mid_one,
                mid_other,
            );
        }
    }
}

/// With a parser that leaves one outcome for each line, over records with one default value,
/// a file holds one mapping: the lines of the file decide the record of every section.
pub proof fn law_one_mapping<RowType: Default, P: LineParser<RowType>>(
    parser: P,
    delimiter: Seq<char>,
    lines: Seq<Seq<char>>,
    one: Map<Seq<char>, RowType>,
    other: Map<Seq<char>, RowType>,
)
    requires
        is_single_valued(parser),
        has_canonical_default::<RowType>(),
        holds(parser, delimiter, lines, one),
        holds(parser, delimiter, lines, other),
    ensures
        one == other,
{
    assert forall|name: Seq<char>| one.contains_key(name) implies one[name] == other[name] by {
        let header = lemma_last_header_named(delimiter, lines, name);
        let end = lemma_next_header(delimiter, lines, header + 1);
        assert(is_section(delimiter, lines, header, end));
        let body = lines.subrange(header + 1, end);
        let start_one = choose|start: RowType| #[trigger]
            is_default(start) && gathers(parser, name, body, start, one[name]);
        let start_other = choose|start: RowType| #[trigger]
            is_default(start) && gathers(parser, name, body, start, other[name]);
        lemma_gathers_determined(parser, name, body, start_one, one[name], other[name]);
    }
    assert(one =~= other);
}

/// A section without data lines has a default record: where the last section of a name has
/// only empty lines between its header and the next header, or the end of the file, the file
/// holds a default record under that name.
pub proof fn law_section_without_data_is_default<RowType: Default, P: LineParser<RowType>>(
    parser: P,
    delimiter: Seq<char>,
    lines: Seq<Seq<char>>,
    sections: Map<Seq<char>, RowType>,
    header: int,
    end: int,
)
    requires
        holds(parser, delimiter, lines, sections),
        is_section(delimiter, lines, header, end),
        is_last_of_its_name(delimiter, lines, header),
        forall|k: int| header < k < end ==> (#[trigger] lines[k]).len() == 0,
    ensures
        is_default(sections[header_name(delimiter, lines[header])]),
{
    let name = header_name(delimiter, lines[header]);
    let body = lines.subrange(header + 1, end);
    let start = choose|start: RowType| #[trigger]
        is_default(start) && gathers(parser, name, body, start, sections[name]);
    assert forall|k: int| 0 <= k < body.len() implies (#[trigger] body[k]).len() == 0 by {
        assert(body[k] == lines[header + 1 + k]);
    }
    lemma_gathers_nothing(parser, name, body, start, sections[name]);
}

/// Empty lines leave a record as it is.
pub proof fn lemma_gathers_nothing<RowType, P: LineParser<RowType>>(
    parser: P,
    section: Seq<char>,
    body: Seq<Seq<char>>,
    before: RowType,
    after: RowType,
)
    requires
        forall|k: int| 0 <= k < body.len() ==> (#[trigger] body[k]).len() == 0,
        gathers(parser, section, body, before, after),
    ensures
        after == before,
    decreases body.len(),
{
    if body.len() > 0 {
        assert(body.last().len() == 0);
        assert forall|k: int| 0 <= k < body.drop_last().len() implies (
        #[trigger] body.drop_last()[k]).len() == 0 by {
            assert(body.drop_last()[k] == body[k]);
        }
        lemma_gathers_nothing(parser, section, body.drop_last(), before, after);
    }
}

/// A poll that fails leaves the watcher as it was: the mapping and the load time after it are
/// those before it.
pub proof fn law_failed_poll_changes_nothing<RowType: Default, P: LineParser<RowType>>(
    before: Loaded<RowType>,
    parser: P,
    delimiter: Seq<char>,
    probe: FileProbe,
    lines: Seq<Seq<char>>,
    complete: bool,
    after: Loaded<RowType>,
)
    requires
        refreshes_to(before, parser, delimiter, probe, lines, complete, after),
        verdict(before.last_loaded, delimiter, probe, lines, complete) is Err,
    ensures
        after == before,
{
}

/// The load time moves only with a load that succeeds, and then forwards: after a poll that
/// returns `Ok(true)` it is the file's modification time and later than it was, and after any
/// other poll it is what it was.
pub proof fn law_load_time_moves_with_reload<RowType: Default, P: LineParser<RowType>>(
    before: Loaded<RowType>,
    parser: P,
    delimiter: Seq<char>,
    probe: FileProbe,
    lines: Seq<Seq<char>>,
    complete: bool,
    after: Loaded<RowType>,
)
    requires
        refreshes_to(before, parser, delimiter, probe, lines, complete, after),
    ensures
        verdict(before.last_loaded, delimiter, probe, lines, complete) == Ok::<
            bool,
            HotloadError,
        >(true) ==> after.last_loaded.later_than(before.last_loaded) && probe
            == FileProbe::Modified(after.last_loaded),
        verdict(before.last_loaded, delimiter, probe, lines, complete) != Ok::<
            bool,
            HotloadError,
        >(true) ==> after.last_loaded == before.last_loaded,
{
}

/// A poll does not take the load time back.
pub proof fn law_load_time_never_decreases<RowType: Default, P: LineParser<RowType>>(
    before: Loaded<RowType>,
    parser: P,
    delimiter: Seq<char>,
    probe: FileProbe,
    lines: Seq<Seq<char>>,
    complete: bool,
    after: Loaded<RowType>,
)
    requires
        refreshes_to(before, parser, delimiter, probe, lines, complete, after),
    ensures
        after.last_loaded.not_before(before.last_loaded),
{
}

/// After a poll that did not fail, a second poll of the file with its modification time
/// unchanged returns `Ok(false)` and leaves mapping and load time as they are, whatever is
/// read.
pub proof fn law_second_poll_is_idle<RowType: Default, P: LineParser<RowType>>(
    before: Loaded<RowType>,
    parser: P,
    delimiter: Seq<char>,
    probe: FileProbe,
    lines: Seq<Seq<char>>,
    complete: bool,
    after: Loaded<RowType>,
    lines_again: Seq<Seq<char>>,
    complete_again: bool,
    last: Loaded<RowType>,
)
    requires
        verdict(before.last_loaded, delimiter, probe, lines, complete) is Ok,
        refreshes_to(before, parser, delimiter, probe, lines, complete, after),
        refreshes_to(after, parser, delimiter, probe, lines_again, complete_again, last),
    ensures
        verdict(after.last_loaded, delimiter, probe, lines_again, complete_again) == Ok::<
            bool,
            HotloadError,
        >(false),
        last == after,
{
}

/// One poll of a run: what was found of the file, and what was read of it.
pub struct Poll {
    pub probe: FileProbe,
    pub lines: Seq<Seq<char>>,
    pub complete: bool,
}

/// `states` are the states that a watcher goes through under `polls`, the first before the
/// first poll and the last after the last one.
pub open spec fn runs_through<RowType: Default, P: LineParser<RowType>>(
    parser: P,
    delimiter: Seq<char>,
    polls: Seq<Poll>,
    states: Seq<Loaded<RowType>>,
) -> bool {
    &&& states.len() == polls.len() + 1
    &&& forall|k: int|
        0 <= k < polls.len() ==> refreshes_to(
            #[trigger] states[k],
            parser,
            delimiter,
            polls[k].probe,
            polls[k].lines,
            polls[k].complete,
            states[k + 1],
        )
}

/// Over any run of polls the load time never decreases: at a later point of the run it is not
/// before what it was at an earlier point.
pub proof fn law_load_time_is_monotonic<RowType: Default, P: LineParser<RowType>>(
    parser: P,
    delimiter: Seq<char>,
    polls: Seq<Poll>,
    states: Seq<Loaded<RowType>>,
    earlier: int,
    later: int,
)
    requires
        runs_through(parser, delimiter, polls, states),
        0 <= earlier <= later < states.len(),
    ensures
        states[later].last_loaded.not_before(states[earlier].last_loaded),
    decreases later - earlier,
{
    if earlier < later {
        law_load_time_is_monotonic(parser, delimiter, polls, states, earlier, later - 1);
        assert(refreshes_to(
            states[later - 1],
            parser,
            delimiter,
            polls[later - 1].probe,
            polls[later - 1].lines,
            polls[later - 1].complete,
            states[later - 1 + 1],
        ));
        law_timestamps_are_totally_ordered(
            states[later].last_loaded,
            states[later - 1].last_loaded,
            states[earlier].last_loaded,
        );
    }
}

} // verus!
