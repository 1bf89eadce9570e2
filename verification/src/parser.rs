//! Line parsers: what turns the data lines of a section into its record.

use std::marker::PhantomData;
use vstd::prelude::*;

verus! {

/// Turns the data lines of one section into its record, one line at a time.
pub trait LineParser<RowType> {
    /// Whether `after` is a record that the data line `line` of section `section` may leave in
    /// place of `before`. A parser that does not say leaves every outcome open.
    open spec fn parses_to(
        &self,
        section: Seq<char>,
        line: Seq<char>,
        before: RowType,
        after: RowType,
    ) -> bool {
        true
    }

    /// Takes one data line into the record of its section.
    fn parse(&self, section: &String, line: &String, record: &mut RowType)
        ensures
            self.parses_to(section@, line@, *old(record), *final(record)),
    ;
}

/// The parser leaves one outcome for each data line: what is in the record after a line
/// follows from the section, the line and what was in the record before.
pub open spec fn is_single_valued<RowType, P: LineParser<RowType>>(parser: P) -> bool {
    forall|section: Seq<char>, line: Seq<char>, before: RowType, one: RowType, other: RowType|
        #[trigger] parser.parses_to(section, line, before, one) && #[trigger] parser.parses_to(
            section,
            line,
            before,
            other,
        ) ==> one == other
}

/// `record` is a value that `RowType::default()` may return: the record of a section without
/// data lines.
pub open spec fn is_default<RowType: Default>(record: RowType) -> bool {
    call_ensures(RowType::default, (), record)
}

/// `RowType::default()` has one possible value.
pub open spec fn has_canonical_default<RowType: Default>() -> bool {
    forall|one: RowType, other: RowType|
        #[trigger] is_default(one) && #[trigger] is_default(other) ==> one == other
}

/// A line parser made of a function that takes the section name, the line and the record. It
/// says nothing of the records that the function leaves.
pub struct FnParser<RowType, F: Fn(&String, &String, &mut RowType)> {
    function: F,
    record: PhantomData<RowType>,
}

impl<RowType, F: Fn(&String, &String, &mut RowType)> FnParser<RowType, F> {
    /// The function may be called with every section name, line and record.
    #[verifier::type_invariant]
    spec fn accepts_every_line(&self) -> bool {
        forall|section: &String, line: &String, record: &mut RowType|
            call_requires(self.function, (section, line, record))
    }

    /// The function that the parser hands each data line to.
    pub closed spec fn function(&self) -> F {
        self.function
    }

    /// The parser that hands each data line to `function`, which has to take every line.
    pub fn new(function: F) -> (parser: Self)
        requires
            forall|section: &String, line: &String, record: &mut RowType|
                call_requires(function, (section, line, record)),
        ensures
            parser.function() == function,
    {
        FnParser { function, record: PhantomData }
    }
}

impl<RowType, F: Fn(&String, &String, &mut RowType)> LineParser<RowType> for FnParser<
    RowType,
    F,
> {
    /// Calls the function on the line: the record is left as one call of the function may
    /// leave it.
    fn parse(&self, section: &String, line: &String, record: &mut RowType)
        ensures
            exists|taken: &mut RowType|
                *taken == *old(record) && *final(taken) == *final(record) && #[trigger] call_ensures(
                    self.function(),
                    (section, line, taken),
                    (),
                ),
    {
        proof {
            use_type_invariant(self);
        }
        (self.function)(section, line, record);
        assert(self.function() == self.function);
    }
}

} // verus!
