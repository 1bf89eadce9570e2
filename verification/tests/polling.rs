use hotload::{
    my_parse, DecimalParser, FileProbe, FileRead, FnParser, HotloadError, HotloadedFile,
    LineParser, Timestamp,
};

fn lines_of(text: &str) -> Vec<String> {
    text.lines().map(|line| line.to_string()).collect()
}

fn whole(text: &str) -> FileRead {
    FileRead { lines: lines_of(text), complete: true }
}

fn broken_off(text: &str) -> FileRead {
    FileRead { lines: lines_of(text), complete: false }
}

fn at(seconds: i64, nanos: u32) -> FileProbe {
    FileProbe::Modified(Timestamp { seconds, nanos })
}

struct Joiner;

impl LineParser<String> for Joiner {
    fn parse(&self, section: &String, line: &String, record: &mut String) {
        if record.is_empty() {
            record.push_str(section);
        }
        record.push('|');
        record.push_str(line);
    }
}

#[test]
fn second_poll_of_unmodified_file_is_idle() {
    let mut watcher = HotloadedFile::new("watched.txt", ":", DecimalParser);
    let read = whole(":A\n1\n:B\n2\n");
    assert_eq!(watcher.hotload(&at(100, 5), &read), Ok(true));
    let names = watcher.section_names().clone();
    assert_eq!(watcher.hotload(&at(100, 5), &read), Ok(false));
    assert_eq!(watcher.last_loaded_time(), Timestamp { seconds: 100, nanos: 5 });
    assert_eq!(watcher.len(), 2);
    assert_eq!(watcher.get("A"), Some(&1));
    assert_eq!(watcher.get("B"), Some(&2));
    assert_eq!(watcher.section_names(), &names);
}

#[test]
fn idle_poll_does_not_look_at_what_was_read() {
    let mut watcher = HotloadedFile::new("watched.txt", ":", DecimalParser);
    assert_eq!(watcher.hotload(&at(100, 0), &whole(":A\n1\n")), Ok(true));
    assert_eq!(watcher.hotload(&at(100, 0), &whole("stray\n")), Ok(false));
    assert_eq!(watcher.hotload(&at(100, 0), &broken_off("")), Ok(false));
    assert_eq!(watcher.hotload(&at(99, 999_999_999), &whole(":B\n2\n")), Ok(false));
    assert_eq!(watcher.len(), 1);
    assert_eq!(watcher.get("A"), Some(&1));
}

#[test]
fn newer_file_replaces_the_whole_mapping() {
    let mut watcher = HotloadedFile::new("watched.txt", ":", DecimalParser);
    assert_eq!(watcher.hotload(&at(100, 0), &whole(":A\n1\n:B\n2\n")), Ok(true));
    assert_eq!(watcher.hotload(&at(100, 1), &whole(":B\n20\n:C\n30\n")), Ok(true));
    assert_eq!(watcher.last_loaded_time(), Timestamp { seconds: 100, nanos: 1 });
    assert_eq!(watcher.len(), 2);
    assert_eq!(watcher.get("A"), None);
    assert_eq!(watcher.get("B"), Some(&20));
    assert_eq!(watcher.get("C"), Some(&30));
    assert_eq!(watcher.section_names(), &vec!["B".to_string(), "C".to_string()]);
}

#[test]
fn load_time_never_goes_back() {
    let mut watcher = HotloadedFile::new("watched.txt", ":", DecimalParser);
    let read = whole(":A\n1\n");
    let probes = [
        at(5, 0),
        at(3, 0),
        FileProbe::Missing,
        at(5, 0),
        at(7, 10),
        at(7, 9),
        FileProbe::NoModificationTime,
        at(-4, 0),
        at(7, 11),
    ];
    let mut last = watcher.last_loaded_time();
    for probe in probes.iter() {
        let _ = watcher.hotload(probe, &read);
        let now = watcher.last_loaded_time();
        assert!(!last.is_after(&now));
        last = now;
    }
    assert_eq!(last, Timestamp { seconds: 7, nanos: 11 });
}

#[test]
fn failed_reload_keeps_mapping_and_load_time() {
    let mut watcher = HotloadedFile::new("watched.txt", ":", DecimalParser);
    assert_eq!(watcher.hotload(&at(10, 0), &whole(":A\n1\n:B\n2\n")), Ok(true));
    let bad = whole(":C\n3\n:\nstray\n");
    assert_eq!(watcher.hotload(&at(11, 0), &bad), Err(HotloadError::StructureError));
    assert_eq!(watcher.last_loaded_time(), Timestamp { seconds: 10, nanos: 0 });
    assert_eq!(watcher.len(), 2);
    assert_eq!(watcher.get("A"), Some(&1));
    assert_eq!(watcher.get("B"), Some(&2));
    assert_eq!(watcher.get("C"), None);
    assert_eq!(watcher.section_names(), &vec!["A".to_string(), "B".to_string()]);
}

#[test]
fn failed_reload_is_tried_again_on_the_next_poll() {
    let mut watcher = HotloadedFile::new("watched.txt", ":", DecimalParser);
    assert_eq!(watcher.hotload(&at(10, 0), &whole("stray\n")), Err(HotloadError::StructureError));
    assert_eq!(watcher.hotload(&at(10, 0), &whole("stray\n")), Err(HotloadError::StructureError));
    assert_eq!(watcher.hotload(&at(10, 0), &whole(":A\n8\n")), Ok(true));
    assert_eq!(watcher.get("A"), Some(&8));
}

#[test]
fn file_that_vanishes_keeps_what_was_loaded() {
    let mut watcher = HotloadedFile::new("watched.txt", ":", DecimalParser);
    assert_eq!(watcher.hotload(&at(10, 0), &whole(":A\n1\n")), Ok(true));
    assert_eq!(watcher.hotload(&FileProbe::Missing, &broken_off("")), Err(HotloadError::NotFound));
    assert_eq!(watcher.get("A"), Some(&1));
    assert_eq!(watcher.last_loaded_time(), Timestamp { seconds: 10, nanos: 0 });
    assert_eq!(watcher.hotload(&at(12, 0), &whole(":A\n2\n")), Ok(true));
    assert_eq!(watcher.get("A"), Some(&2));
}

#[test]
fn missing_modification_time_is_metadata_error() {
    let mut watcher = HotloadedFile::new("watched.txt", ":", DecimalParser);
    let read = whole(":A\n1\n");
    assert_eq!(
        watcher.hotload(&FileProbe::NoModificationTime, &read),
        Err(HotloadError::MetadataError)
    );
    assert!(watcher.is_empty());
    assert_eq!(watcher.last_loaded_time(), Timestamp::zero());
}

#[test]
fn read_that_breaks_off_is_io_error() {
    let mut watcher = HotloadedFile::new("watched.txt", ":", DecimalParser);
    assert_eq!(watcher.hotload(&at(10, 0), &broken_off(":A\n1\n")), Err(HotloadError::IOError));
    assert!(watcher.is_empty());
    assert_eq!(watcher.last_loaded_time(), Timestamp::zero());
    assert_eq!(watcher.hotload(&at(10, 0), &broken_off("")), Err(HotloadError::IOError));
}

#[test]
fn stray_line_is_reported_before_a_broken_read() {
    let mut watcher = HotloadedFile::new("watched.txt", ":", DecimalParser);
    assert_eq!(
        watcher.hotload(&at(10, 0), &broken_off("stray\n:A\n")),
        Err(HotloadError::StructureError)
    );
}

#[test]
fn file_at_time_zero_is_never_loaded() {
    let mut watcher = HotloadedFile::new("watched.txt", ":", DecimalParser);
    assert_eq!(watcher.hotload(&at(0, 0), &whole(":A\n1\n")), Ok(false));
    assert_eq!(watcher.hotload(&at(-1, 999_999_999), &whole(":A\n1\n")), Ok(false));
    assert!(watcher.is_empty());
    assert_eq!(watcher.hotload(&at(0, 1), &whole(":A\n1\n")), Ok(true));
    assert_eq!(watcher.get("A"), Some(&1));
}

#[test]
fn is_stale_tells_when_a_poll_would_read() {
    let mut watcher = HotloadedFile::new("watched.txt", ":", DecimalParser);
    assert!(!watcher.is_stale(&FileProbe::Missing));
    assert!(!watcher.is_stale(&FileProbe::NoModificationTime));
    assert!(!watcher.is_stale(&at(0, 0)));
    assert!(watcher.is_stale(&at(0, 1)));
    assert!(watcher.is_stale(&at(50, 0)));
    assert_eq!(watcher.hotload(&at(50, 0), &whole("")), Ok(true));
    assert!(!watcher.is_stale(&at(50, 0)));
    assert!(!watcher.is_stale(&at(49, 999_999_999)));
    assert!(watcher.is_stale(&at(50, 1)));
    assert!(watcher.is_stale(&at(51, 0)));
}

#[test]
fn reload_file_replaces_mapping_and_leaves_load_time() {
    let mut watcher = HotloadedFile::new("watched.txt", ":", DecimalParser);
    assert_eq!(watcher.reload_file(&whole(":A\n1\n")), Ok(true));
    assert_eq!(watcher.get("A"), Some(&1));
    assert_eq!(watcher.last_loaded_time(), Timestamp::zero());
    assert_eq!(watcher.reload_file(&whole("1\n")), Err(HotloadError::StructureError));
    assert_eq!(watcher.reload_file(&broken_off(":B\n")), Err(HotloadError::IOError));
    assert_eq!(watcher.len(), 1);
    assert_eq!(watcher.get("A"), Some(&1));
    assert_eq!(watcher.reload_file(&whole("")), Ok(true));
    assert!(watcher.is_empty());
}

#[test]
fn records_gather_over_the_lines_of_a_section() {
    let mut watcher = HotloadedFile::new("watched.txt", "#", Joiner);
    let read = whole("#a\nx\ny\n\nz\n#b\n#c\nw\n");
    assert_eq!(watcher.hotload(&at(1, 0), &read), Ok(true));
    assert_eq!(watcher.len(), 3);
    assert_eq!(watcher.get("a").map(|s| s.as_str()), Some("a|x|y|z"));
    assert_eq!(watcher.get("b").map(|s| s.as_str()), Some(""));
    assert_eq!(watcher.get("c").map(|s| s.as_str()), Some("c|w"));
}

#[test]
fn records_start_afresh_in_every_section() {
    let mut watcher = HotloadedFile::new("watched.txt", "#", Joiner);
    let read = whole("#a\nx\n#a\ny\n");
    assert_eq!(watcher.hotload(&at(1, 0), &read), Ok(true));
    assert_eq!(watcher.len(), 1);
    assert_eq!(watcher.get("a").map(|s| s.as_str()), Some("a|y"));
}

#[test]
fn bad_number_keeps_the_number_before_it() {
    let mut watcher = HotloadedFile::new("watched.txt", ":", DecimalParser);
    let read = whole(":A\n5\nfive\n:B\nsix\n:C\n1\n2\n-3\n");
    assert_eq!(watcher.hotload(&at(1, 0), &read), Ok(true));
    assert_eq!(watcher.get("A"), Some(&5));
    assert_eq!(watcher.get("B"), Some(&0));
    assert_eq!(watcher.get("C"), Some(&2));
}

#[test]
fn function_as_parser_loads_as_the_decimal_parser_does() {
    let mut by_function = HotloadedFile::new("watched.txt", ":", FnParser::new(my_parse));
    let mut by_parser = HotloadedFile::new("watched.txt", ":", DecimalParser);
    let read = whole(":Section1\n1\n\n:Section2\n2\nx\n:Section3\n");
    assert_eq!(by_function.hotload(&at(1, 0), &read), Ok(true));
    assert_eq!(by_parser.hotload(&at(1, 0), &read), Ok(true));
    assert_eq!(by_function.section_names(), by_parser.section_names());
    for name in by_parser.section_names() {
        assert_eq!(by_function.get(name), by_parser.get(name));
    }
    assert_eq!(by_function.get("Section1"), Some(&1));
    assert_eq!(by_function.get("Section2"), Some(&2));
    assert_eq!(by_function.get("Section3"), Some(&0));
}

#[test]
fn closure_as_parser_sees_section_line_and_record() {
    let count = |section: &String, line: &String, record: &mut Vec<String>| {
        record.push(format!("{}={}", section, line));
    };
    let mut watcher = HotloadedFile::new("watched.txt", "--", FnParser::new(count));
    let read = whole("--x\na\nb\n--y\n--x\nc\n");
    assert_eq!(watcher.hotload(&at(1, 0), &read), Ok(true));
    assert_eq!(watcher.len(), 2);
    assert_eq!(watcher.get("x"), Some(&vec!["x=c".to_string()]));
    assert_eq!(watcher.get("y"), Some(&Vec::new()));
}

#[test]
fn parser_is_not_called_when_the_file_is_refused_at_its_first_line() {
    let fail = |_section: &String, _line: &String, _record: &mut u32| {
        panic!("no data line belongs to a section");
    };
    let mut watcher = HotloadedFile::new("watched.txt", ":", FnParser::new(fail));
    assert_eq!(watcher.hotload(&at(1, 0), &whole("stray\n:A\n1\n")), Err(HotloadError::StructureError));
    assert_eq!(watcher.hotload(&at(1, 0), &whole(":A\n\n:B\n")), Ok(true));
    assert_eq!(watcher.len(), 2);
}

#[test]
fn contents_give_the_mapping_of_the_last_load() {
    let mut watcher = HotloadedFile::new("watched.txt", ":", DecimalParser);
    assert_eq!(watcher.hotload(&at(1, 0), &whole(":b\n2\n:a\n1\n:b\n3\n")), Ok(true));
    let contents = watcher.contents();
    assert_eq!(contents.len(), 2);
    assert_eq!(contents.get("a"), Some(&1));
    assert_eq!(contents.get("b"), Some(&3));
    assert!(contents.contains_key("a"));
    assert!(!contents.contains_key("c"));
    assert_eq!(contents.section_names(), &vec!["b".to_string(), "a".to_string()]);
}
