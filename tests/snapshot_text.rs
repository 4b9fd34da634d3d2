use lsdiff::number::{format_int, parse_int};
use lsdiff::snapshot::{format_snapshot, load_snapshot, parse_snapshot, Corruption, Snapshot};
use lsdiff::text::{join_with_newlines, lines_of};

fn names(v: &[&str]) -> Vec<String> {
    v.iter().map(|s| s.to_string()).collect()
}

#[test]
fn lines_split_at_each_newline() {
    assert_eq!(lines_of("a\nb"), names(&["a", "b"]));
    assert_eq!(lines_of("a\n"), names(&["a", ""]));
    assert_eq!(lines_of(""), names(&[""]));
    assert_eq!(lines_of("\n\n"), names(&["", "", ""]));
}

#[test]
fn join_puts_newlines_between() {
    assert_eq!(join_with_newlines(&names(&["a", "b", "c"])), "a\nb\nc");
    assert_eq!(join_with_newlines(&names(&["x"])), "x");
    assert_eq!(join_with_newlines(&Vec::new()), "");
}

#[test]
fn integers_format_and_parse() {
    assert_eq!(format_int(0), "0");
    assert_eq!(format_int(19000), "19000");
    assert_eq!(format_int(-42), "-42");
    assert_eq!(format_int(i64::MIN), "-9223372036854775808");
    assert_eq!(format_int(i64::MAX), "9223372036854775807");
    assert_eq!(parse_int("19000"), Some(19000));
    assert_eq!(parse_int("+7"), Some(7));
    assert_eq!(parse_int("-7"), Some(-7));
    assert_eq!(parse_int("007"), Some(7));
    assert_eq!(parse_int("-9223372036854775808"), Some(i64::MIN));
    assert_eq!(parse_int("9223372036854775807"), Some(i64::MAX));
    assert_eq!(parse_int("9223372036854775808"), None);
    assert_eq!(parse_int("-9223372036854775809"), None);
    assert_eq!(parse_int(""), None);
    assert_eq!(parse_int("-"), None);
    assert_eq!(parse_int("19000.0"), None);
    assert_eq!(parse_int(" 1"), None);
}

#[test]
fn snapshot_is_written_in_two_sections() {
    let s = Snapshot { captured_at: 20000, entries: names(&["a.txt", "b.txt"]) };
    assert_eq!(format_snapshot(&s), "[TIME]\n20000\n[FILES]\na.txt\nb.txt");
    let empty = Snapshot { captured_at: 5, entries: Vec::new() };
    assert_eq!(format_snapshot(&empty), "[TIME]\n5\n[FILES]\n");
}

#[test]
fn snapshot_reads_back_what_was_written() {
    for entries in [names(&["a.txt", "b.txt", "c"]), names(&["x"]), Vec::new()] {
        for day in [0i64, 20000, -3, i64::MAX, i64::MIN] {
            let s = Snapshot { captured_at: day, entries: entries.clone() };
            let back = parse_snapshot(&format_snapshot(&s)).unwrap();
            assert_eq!(back.captured_at, day);
            assert_eq!(back.entries, entries);
        }
    }
}

#[test]
fn trailing_newline_is_no_entry() {
    let s = parse_snapshot("[TIME]\n12\n[FILES]\na\nb\n").unwrap();
    assert_eq!(s.captured_at, 12);
    assert_eq!(s.entries, names(&["a", "b"]));
    let only_one = parse_snapshot("[TIME]\n12\n[FILES]\na\n\n").unwrap();
    assert_eq!(only_one.entries, names(&["a", ""]));
    let none = parse_snapshot("[TIME]\n12\n[FILES]").unwrap();
    assert!(none.entries.is_empty());
}

#[test]
fn markers_may_follow_other_lines() {
    let s = parse_snapshot("junk\n[TIME]\n3\nmore junk\n[FILES]\n[TIME]\nz").unwrap();
    assert_eq!(s.captured_at, 3);
    assert_eq!(s.entries, names(&["[TIME]", "z"]));
}

#[test]
fn corruption_is_named() {
    assert_eq!(parse_snapshot("").err(), Some(Corruption::MissingTime));
    assert_eq!(parse_snapshot("[FILES]\na").err(), Some(Corruption::MissingTime));
    assert_eq!(parse_snapshot("[TIME]").err(), Some(Corruption::BadTime));
    assert_eq!(parse_snapshot("[TIME]\nsoon\n[FILES]\na").err(), Some(Corruption::BadTime));
    assert_eq!(parse_snapshot("[TIME]\n19000.0\n[FILES]\na").err(), Some(Corruption::BadTime));
    assert_eq!(parse_snapshot("[TIME]\n3\na\nb").err(), Some(Corruption::MissingFiles));
    // The time value line itself is not searched for the files marker.
    assert_eq!(parse_snapshot("[TIME]\n[FILES]").err(), Some(Corruption::BadTime));
}

#[test]
fn cache_without_files_marker_loads_as_day_zero() {
    let (s, problem) = load_snapshot("[TIME]\n20000\na.txt\nb.txt\n");
    assert_eq!(s.captured_at, 0);
    assert!(s.entries.is_empty());
    assert_eq!(problem, Some(Corruption::MissingFiles));
}

#[test]
fn sound_cache_loads_without_problem() {
    let (s, problem) = load_snapshot("[TIME]\n20000\n[FILES]\na.txt");
    assert_eq!(s.captured_at, 20000);
    assert_eq!(s.entries, names(&["a.txt"]));
    assert_eq!(problem, None);
}
