//! The watcher: when to reload, and what a reload leaves behind.
//!
//! The watcher does not touch the file system. Whoever polls it looks at the file, hands over
//! what was found as a `FileProbe` and, where the file has to be read, its lines as a
//! `FileRead`. A poll either replaces mapping and load time together or changes nothing.

use crate::format::{holds, is_stray, open_section, section_names, strip_prefix, well_formed};
use crate::parser::LineParser;
use crate::scan::{lemma_open_section_push, lemma_scan_holds, lemma_scan_push, scans_to, Scan};
use crate::sections::SectionMap;
use crate::timestamp::Timestamp;
use vstd::prelude::*;

verus! {

/// Why a poll failed.
#[derive(Clone, Copy, Debug, PartialEq, Eq, Structural)]
pub enum HotloadError {
    /// The watched file does not exist.
    NotFound,
    /// The file exists, and its modification time cannot be had.
    MetadataError,
    /// The file could not be opened, or not be read to its end.
    IOError,
    /// A data line stands where no section is open.
    StructureError,
}

/// What a look at the watched file found.
#[derive(Clone, Copy, Debug, PartialEq, Eq, Structural)]
pub enum FileProbe {
    /// There is no file at the watched path.
    Missing,
    /// There is a file, and the file system gives no modification time for it.
    NoModificationTime,
    /// There is a file, last modified at this time.
    Modified(Timestamp),
}

/// What came of reading the watched file line by line.
#[derive(Debug)]
pub struct FileRead {
    /// The lines that were read, in order, without their line breaks.
    pub lines: Vec<String>,
    /// Whether the end of the file was reached. Where opening or reading failed, `lines` holds
    /// what was read before.
    pub complete: bool,
}

/// What a watcher has loaded: the part of it that a poll can change.
#[verifier::ext_equal]
pub struct Loaded<RowType> {
    /// The modification time of the file as of the last load; zero before the first.
    pub last_loaded: Timestamp,
    /// The record of each section, as of the last load.
    pub sections: Map<Seq<char>, RowType>,
}

/// The file is newer than what was loaded.
pub open spec fn stale(last_loaded: Timestamp, probe: FileProbe) -> bool {
    probe matches FileProbe::Modified(modified) && modified.later_than(last_loaded)
}

/// What loading these lines returns: a stray data line among them is reported first, a read
/// that broke off second.
pub open spec fn load_verdict(
    delimiter: Seq<char>,
    lines: Seq<Seq<char>>,
    complete: bool,
) -> Result<bool, HotloadError> {
    if !well_formed(delimiter, lines) {
        Err(HotloadError::StructureError)
    } else if !complete {
        Err(HotloadError::IOError)
    } else {
        Ok(true)
    }
}

/// What a poll returns.
pub open spec fn verdict(
    last_loaded: Timestamp,
    delimiter: Seq<char>,
    probe: FileProbe,
    lines: Seq<Seq<char>>,
    complete: bool,
) -> Result<bool, HotloadError> {
    match probe {
        FileProbe::Missing => Err(HotloadError::NotFound),
        FileProbe::NoModificationTime => Err(HotloadError::MetadataError),
        FileProbe::Modified(modified) => if modified.later_than(last_loaded) {
            load_verdict(delimiter, lines, complete)
        } else {
            Ok(false)
        },
    }
}

/// What a poll may leave behind: a load that succeeds replaces the mapping by one that the
/// lines hold and moves the load time to the file's modification time; every other poll
/// changes nothing.
pub open spec fn refreshes_to<RowType: Default, P: LineParser<RowType>>(
    before: Loaded<RowType>,
    parser: P,
    delimiter: Seq<char>,
    probe: FileProbe,
    lines: Seq<Seq<char>>,
    complete: bool,
    after: Loaded<RowType>,
) -> bool {
    if verdict(before.last_loaded, delimiter, probe, lines, complete) == Ok::<bool, HotloadError>(
        true,
    ) {
        &&& probe matches FileProbe::Modified(modified)
        &&& after.last_loaded == modified
        &&& holds(parser, delimiter, lines, after.sections)
    } else {
        after == before
    }
}

/// A watched file: its path, the delimiter that marks a header line, the parser of its data
/// lines, and the mapping that the last successful load produced.
#[verifier::reject_recursive_types(RowType)]
pub struct HotloadedFile<RowType: Default, P: LineParser<RowType>> {
    file_path: &'static str,
    section_header: &'static str,
    parsing_function: P,
    last_loaded_time: Timestamp,
    contents: SectionMap<RowType>,
}

impl<RowType: Default, P: LineParser<RowType>> View for HotloadedFile<RowType, P> {
    type V = Loaded<RowType>;

    closed spec fn view(&self) -> Loaded<RowType> {
        Loaded { last_loaded: self.last_loaded_time, sections: self.contents@ }
    }
}

impl<RowType: Default, P: LineParser<RowType>> HotloadedFile<RowType, P> {
    /// The path of the watched file.
    pub closed spec fn path(&self) -> Seq<char> {
        self.file_path@
    }

    /// The prefix that marks a header line.
    pub closed spec fn delimiter(&self) -> Seq<char> {
        self.section_header@
    }

    /// The parser that data lines go through.
    pub closed spec fn parser(&self) -> P {
        self.parsing_function
    }

    /// Path, delimiter and parser are those of `other`.
    pub open spec fn watches_as(&self, other: &Self) -> bool {
        &&& self.path() == other.path()
        &&& self.delimiter() == other.delimiter()
        &&& self.parser() == other.parser()
    }

    /// A watcher that has loaded nothing yet.
    pub fn new(
        file_path: &'static str,
        section_header: &'static str,
        parsing_function: P,
    ) -> (watcher: Self)
        ensures
            watcher.path() == file_path@,
            watcher.delimiter() == section_header@,
            watcher.parser() == parsing_function,
            watcher@ == (Loaded {
                last_loaded: Timestamp { seconds: 0, nanos: 0 },
                sections: Map::<Seq<char>, RowType>::empty(),
            }),
    {
        HotloadedFile {
            file_path,
            section_header,
            parsing_function,
            last_loaded_time: Timestamp::zero(),
            contents: SectionMap::new(),
        }
    }

    /// Parses the lines anew. Where they are well formed and were read to the end, the mapping
    /// is replaced by what they hold; otherwise it stays as it was.
    pub fn reload_file(&mut self, read: &FileRead) -> (res: Result<bool, HotloadError>)
        ensures
            res == load_verdict(old(self).delimiter(), read.lines.deep_view(), read.complete),
            final(self).watches_as(old(self)),
            final(self)@.last_loaded == old(self)@.last_loaded,
            res is Ok ==> holds(
                old(self).parser(),
                old(self).delimiter(),
                read.lines.deep_view(),
                final(self)@.sections,
            ),
            res is Ok ==> final(self)@.sections.dom() == section_names(
                old(self).delimiter(),
                read.lines.deep_view(),
            ),
            res is Err ==> final(self)@ == old(self)@,
    {
        let ghost texts = read.lines.deep_view();
        let mut scratch: SectionMap<RowType> = SectionMap::new();
        let mut current_header = String::new();
        let mut section_content: RowType = RowType::default();
        proof {
            assert(texts.take(0) =~= Seq::<Seq<char>>::empty());
        }
        let mut i: usize = 0;
        while i < read.lines.len()
            invariant
                i <= read.lines.len(),
                *self == *old(self),
                texts == read.lines.deep_view(),
                scans_to(
                    self.parsing_function,
                    self.section_header@,
                    texts.take(i as int),
                    Scan { section: current_header@, record: section_content, committed: scratch@ },
                ),
                current_header@ == open_section(self.section_header@, texts.take(i as int)),
                forall|j: int| 0 <= j < i ==> !is_stray(self.section_header@, texts, j),
            decreases read.lines.len() - i,
        {
            let line = &read.lines[i];
            let ghost at = Scan {
                section: current_header@,
                record: section_content,
                committed: scratch@,
            };
            proof {
                assert(texts[i as int] == line@);
                assert(texts.take(i as int + 1) =~= texts.take(i as int).push(line@));
                lemma_open_section_push(self.section_header@, texts.take(i as int), line@);
            }
            if !line.as_str().is_empty() {
                match strip_prefix(line.as_str(), self.section_header) {
                    Some(name) => {
                        if !current_header.as_str().is_empty() {
                            scratch.insert(current_header, section_content);
                            section_content = RowType::default();
                        }
                        current_header = name.to_owned();
                    },
                    None => {
                        if current_header.as_str().is_empty() {
                            assert(is_stray(self.section_header@, texts, i as int));
                            return Err(HotloadError::StructureError);
                        }
                        self.parsing_function.parse(&current_header, line, &mut section_content);
                    },
                }
            }
            proof {
                lemma_scan_push(
                    self.parsing_function,
                    self.section_header@,
                    texts.take(i as int),
                    at,
                    line@,
                    Scan { section: current_header@, record: section_content, committed: scratch@ },
                );
            }
            i += 1;
        }
        proof {
            assert(texts.take(i as int) =~= texts);
        }
        if !read.complete {
            return Err(HotloadError::IOError);
        }
        proof {
            lemma_scan_holds(
                self.parsing_function,
                self.section_header@,
                texts,
                Scan { section: current_header@, record: section_content, committed: scratch@ },
            );
        }
        if !current_header.as_str().is_empty() {
            scratch.insert(current_header, section_content);
        }
        self.contents = scratch;
        Ok(true)
    }

    /// Whether the file, as `probe` found it, is newer than what was loaded, so that a poll
    /// would read it.
    pub fn is_stale(&self, probe: &FileProbe) -> (newer: bool)
        ensures
            newer == stale(self@.last_loaded, *probe),
    {
        match probe {
            FileProbe::Modified(modification_time) => modification_time.is_after(
                &self.last_loaded_time,
            ),
            _ => false,
        }
    }

    /// One poll. Reports a missing file or a missing modification time; does nothing and
    /// returns `Ok(false)` while the file is no newer than what was loaded; and loads the lines
    /// in `read` otherwise. `Ok(true)` means that the mapping was replaced and the load time is
    /// now the file's modification time. After any other result the watcher is as it was, and
    /// `read` has played no part unless the file was newer.
    pub fn hotload(&mut self, probe: &FileProbe, read: &FileRead) -> (res: Result<bool, HotloadError>)
        ensures
            res == verdict(
                old(self)@.last_loaded,
                old(self).delimiter(),
                *probe,
                read.lines.deep_view(),
                read.complete,
            ),
            refreshes_to(
                old(self)@,
                old(self).parser(),
                old(self).delimiter(),
                *probe,
                read.lines.deep_view(),
                read.complete,
                final(self)@,
            ),
            final(self).watches_as(old(self)),
            final(self)@.last_loaded.not_before(old(self)@.last_loaded),
            res == Ok::<bool, HotloadError>(true) ==> final(self)@.last_loaded.later_than(
                old(self)@.last_loaded,
            ),
            res != Ok::<bool, HotloadError>(true) ==> final(self)@ == old(self)@,
            res == Ok::<bool, HotloadError>(true) ==> final(self)@.sections.dom() == section_names(
                old(self).delimiter(),
                read.lines.deep_view(),
            ),
    {
        match probe {
            FileProbe::Missing => Err(HotloadError::NotFound),
            FileProbe::NoModificationTime => Err(HotloadError::MetadataError),
            FileProbe::Modified(modification_time) => {
                if modification_time.is_after(&self.last_loaded_time) {
                    let result = self.reload_file(read);
                    match result {
                        Ok(_) => {
                            self.last_loaded_time = *modification_time;
                            result
                        },
                        Err(e) => Err(e),
                    }
                } else {
                    // The file was not modified since it was last loaded.
                    Ok(false)
                }
            },
        }
    }

    /// The path of the watched file.
    pub fn file_path(&self) -> (path: &'static str)
        ensures
            path@ == self.path(),
    {
        self.file_path
    }

    /// The prefix that marks a header line.
    pub fn section_header(&self) -> (delimiter: &'static str)
        ensures
            delimiter@ == self.delimiter(),
    {
        self.section_header
    }

    /// The modification time of the file as of the last load; zero before the first.
    pub fn last_loaded_time(&self) -> (time: Timestamp)
        ensures
            time == self@.last_loaded,
    {
        self.last_loaded_time
    }

    /// The record of the section `name`, as of the last load.
    pub fn get(&self, name: &str) -> (record: Option<&RowType>)
        ensures
            match record {
                Some(r) => self@.sections.contains_key(name@) && *r == self@.sections[name@],
                None => !self@.sections.contains_key(name@),
            },
    {
        self.contents.get(name)
    }

    /// The number of sections, as of the last load.
    pub fn len(&self) -> (count: usize)
        ensures
            count == self@.sections.len(),
    {
        self.contents.len()
    }

    /// Whether the last load gave no section, or nothing was loaded yet.
    pub fn is_empty(&self) -> (none: bool)
        ensures
            none == self@.sections.is_empty(),
    {
        self.contents.is_empty()
    }

    /// The names of the sections, each once. With `get` this walks over all sections.
    pub fn section_names(&self) -> (names: &Vec<String>)
        ensures
            names.deep_view().no_duplicates(),
            names.deep_view().to_set() == self@.sections.dom(),
    {
        self.contents.section_names()
    }

    /// The mapping as of the last load.
    pub fn contents(&self) -> (sections: &SectionMap<RowType>)
        ensures
            sections@ == self@.sections,
    {
        &self.contents
    }
}

} // verus!
