use hotload::format::strip_prefix;
use hotload::SectionMap;

#[test]
fn strip_prefix_gives_what_follows_the_prefix() {
    assert_eq!(strip_prefix(":Section1", ":"), Some("Section1"));
    assert_eq!(strip_prefix("::x", ":"), Some(":x"));
    assert_eq!(strip_prefix("::x", "::"), Some("x"));
    assert_eq!(strip_prefix("[name]", "["), Some("name]"));
    assert_eq!(strip_prefix(": padded ", ":"), Some(" padded "));
}

#[test]
fn strip_prefix_of_the_prefix_alone_is_empty() {
    assert_eq!(strip_prefix(":", ":"), Some(""));
    assert_eq!(strip_prefix("", ""), Some(""));
    assert_eq!(strip_prefix("abc", "abc"), Some(""));
}

#[test]
fn strip_prefix_with_empty_prefix_gives_the_line() {
    assert_eq!(strip_prefix("line", ""), Some("line"));
}

#[test]
fn strip_prefix_refuses_other_lines() {
    assert_eq!(strip_prefix("Section1", ":"), None);
    assert_eq!(strip_prefix(" :Section1", ":"), None);
    assert_eq!(strip_prefix("", ":"), None);
    assert_eq!(strip_prefix(":", "::"), None);
    assert_eq!(strip_prefix(":x", "::"), None);
    assert_eq!(strip_prefix("ab", "abc"), None);
    assert_eq!(strip_prefix("abd", "abc"), None);
}

#[test]
fn strip_prefix_counts_characters_not_bytes() {
    assert_eq!(strip_prefix("§größe", "§"), Some("größe"));
    assert_eq!(strip_prefix("→→名前", "→→"), Some("名前"));
    assert_eq!(strip_prefix("éa", "e"), None);
    assert_eq!(strip_prefix("ea", "é"), None);
    assert_eq!(strip_prefix("→x", "→→"), None);
}

#[test]
fn strip_prefix_agrees_with_the_standard_library() {
    let lines = ["", ":", "::", ":a", "a:", "§§x", "§x", "x§", "→", "ab", "abc", " :a", "é", "e"];
    let prefixes = ["", ":", "::", "§", "§§", "→", "a", "ab", "abc", "é", "e", " "];
    for line in lines {
        for prefix in prefixes {
            assert_eq!(strip_prefix(line, prefix), line.strip_prefix(prefix), "{:?} {:?}", line, prefix);
        }
    }
}

#[test]
fn section_map_starts_empty() {
    let sections: SectionMap<u32> = SectionMap::new();
    assert!(sections.is_empty());
    assert_eq!(sections.len(), 0);
    assert_eq!(sections.get("a"), None);
    assert!(!sections.contains_key("a"));
    assert!(sections.section_names().is_empty());
}

#[test]
fn section_map_lists_names_in_order_of_first_insertion() {
    let mut sections: SectionMap<u32> = SectionMap::new();
    sections.insert("b".to_string(), 2);
    sections.insert("a".to_string(), 1);
    sections.insert("c".to_string(), 3);
    assert_eq!(sections.len(), 3);
    assert!(!sections.is_empty());
    assert_eq!(
        sections.section_names(),
        &vec!["b".to_string(), "a".to_string(), "c".to_string()]
    );
    assert_eq!(sections.get("a"), Some(&1));
    assert_eq!(sections.get("b"), Some(&2));
    assert_eq!(sections.get("c"), Some(&3));
    assert_eq!(sections.get("d"), None);
    assert!(sections.contains_key("c"));
    assert!(!sections.contains_key("d"));
}

#[test]
fn section_map_insert_replaces_the_record_and_keeps_the_name_once() {
    let mut sections: SectionMap<u32> = SectionMap::new();
    sections.insert("a".to_string(), 1);
    sections.insert("b".to_string(), 2);
    sections.insert("a".to_string(), 10);
    assert_eq!(sections.len(), 2);
    assert_eq!(sections.get("a"), Some(&10));
    assert_eq!(sections.get("b"), Some(&2));
    assert_eq!(sections.section_names(), &vec!["a".to_string(), "b".to_string()]);
}
