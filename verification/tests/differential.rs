use hotload::{DecimalParser, FileProbe, FileRead, HotloadError, HotloadedFile, Timestamp};
use std::collections::HashMap;

/// A small generator of numbers that is the same in every run.
struct Dice(u64);

impl Dice {
    fn roll(&mut self, sides: usize) -> usize {
        self.0 = self.0.wrapping_mul(6364136223846793005).wrapping_add(1442695040888963407);
        ((self.0 >> 33) as usize) % sides
    }
}

/// What the lines hold, worked out with the standard library alone.
fn expected(delimiter: &str, lines: &[String]) -> Result<HashMap<String, u32>, HotloadError> {
    let mut sections = HashMap::new();
    let mut open: Option<(String, u32)> = None;
    for line in lines {
        if line.is_empty() {
            continue;
        }
        if let Some(name) = line.strip_prefix(delimiter) {
            if let Some((section, record)) = open.take() {
                sections.insert(section, record);
            }
            if !name.is_empty() {
                open = Some((name.to_string(), 0));
            }
            continue;
        }
        match open.as_mut() {
            None => return Err(HotloadError::StructureError),
            Some((_, record)) => {
                if let Ok(number) = line.parse::<u32>() {
                    *record = number;
                }
            }
        }
    }
    if let Some((section, record)) = open.take() {
        sections.insert(section, record);
    }
    Ok(sections)
}

fn check_against_expected(delimiter: &'static str, pieces: &[&str], seed: u64, files: usize) {
    let mut dice = Dice(seed);
    for round in 0..files {
        let length = dice.roll(12);
        let lines: Vec<String> =
            (0..length).map(|_| pieces[dice.roll(pieces.len())].to_string()).collect();
        let mut watcher = HotloadedFile::new("watched.txt", delimiter, DecimalParser);
        let read = FileRead { lines: lines.clone(), complete: true };
        let probe = FileProbe::Modified(Timestamp { seconds: 1 + round as i64, nanos: 0 });
        let result = watcher.hotload(&probe, &read);
        match expected(delimiter, &lines) {
            Err(error) => {
                assert_eq!(result, Err(error), "{:?}", lines);
                assert!(watcher.is_empty(), "{:?}", lines);
                assert_eq!(watcher.last_loaded_time(), Timestamp::zero());
            }
            Ok(sections) => {
                assert_eq!(result, Ok(true), "{:?}", lines);
                assert_eq!(watcher.len(), sections.len(), "{:?}", lines);
                assert_eq!(watcher.section_names().len(), sections.len(), "{:?}", lines);
                for (name, record) in sections.iter() {
                    assert_eq!(watcher.get(name), Some(record), "{:?} in {:?}", name, lines);
                }
                for name in watcher.section_names() {
                    assert!(sections.contains_key(name), "{:?} in {:?}", name, lines);
                }
                assert_eq!(
                    watcher.last_loaded_time(),
                    Timestamp { seconds: 1 + round as i64, nanos: 0 }
                );
            }
        }
    }
}

#[test]
fn random_files_load_as_expected_with_a_colon() {
    let pieces = ["", ":", ":A", ":B", ":A ", "::", "1", "22", "+3", "x", " ", "4294967296", "A:"];
    check_against_expected(":", &pieces, 1, 4000);
}

#[test]
fn random_files_load_as_expected_with_a_long_delimiter() {
    let pieces = ["", "--", "--x", "--y", "---", "-", "-x", "7", "08", "--7", "é", "--é", "x--"];
    check_against_expected("--", &pieces, 2, 4000);
}

#[test]
fn random_files_load_as_expected_with_a_delimiter_beyond_ascii() {
    let pieces = ["", "§", "§a", "§§", "§é§", "a§", "5", "§5", "五", "§五", "¶a"];
    check_against_expected("§", &pieces, 3, 4000);
}

#[test]
fn random_files_load_as_expected_with_an_empty_delimiter() {
    let pieces = ["", "a", "b", "1", " ", ":a"];
    check_against_expected("", &pieces, 4, 2000);
}
