use lsdiff::diff::{contains_name, difference};
use lsdiff::engine::{day_of, is_stale, run, run_with_cache, SECONDS_PER_DAY};
use lsdiff::snapshot::{format_snapshot, Corruption, Snapshot};

fn names(v: &[&str]) -> Vec<String> {
    v.iter().map(|s| s.to_string()).collect()
}

#[test]
fn difference_keeps_first_places_once() {
    let a = names(&["c", "a", "b", "a", "d"]);
    let b = names(&["b"]);
    assert_eq!(difference(&a, &b), names(&["c", "a", "d"]));
    assert_eq!(difference(&b, &a), Vec::<String>::new());
    assert_eq!(difference(&Vec::new(), &a), Vec::<String>::new());
    assert!(contains_name(&a, &"d".to_string()));
    assert!(!contains_name(&a, &"e".to_string()));
}

#[test]
fn same_listing_shows_no_change() {
    let l = names(&["a", "b", "c"]);
    let s = Snapshot { captured_at: 1, entries: l.clone() };
    let r = run(&l, Some(&s), 9, true);
    assert!(r.added.is_empty());
    assert!(r.removed.is_empty());
    assert!(!r.refreshed);
    assert!(r.save.is_none());
}

#[test]
fn no_name_is_added_and_removed() {
    let l = names(&["a", "b", "c", "d"]);
    let s = Snapshot { captured_at: 1, entries: names(&["c", "d", "e"]) };
    let r = run(&l, Some(&s), 1, false);
    assert_eq!(r.added, names(&["a", "b"]));
    assert_eq!(r.removed, names(&["e"]));
    for x in &r.added {
        assert!(!r.removed.contains(x));
    }
}

#[test]
fn second_run_repeats_and_stores_nothing() {
    let today = 20000;
    let l = names(&["b.txt", "c.txt"]);
    let s = Snapshot { captured_at: today, entries: names(&["a.txt", "b.txt"]) };
    let first = run(&l, Some(&s), today, false);
    assert!(first.save.is_none());
    let second = run(&l, Some(&s), today, false);
    assert_eq!(first.added, second.added);
    assert_eq!(first.removed, second.removed);
    assert!(second.save.is_none());
}

#[test]
fn fresh_snapshot_is_kept() {
    let today = 20000;
    let l = names(&["b.txt", "c.txt"]);
    let s = Snapshot { captured_at: today, entries: names(&["a.txt", "b.txt"]) };
    let r = run(&l, Some(&s), today, false);
    assert_eq!(r.added, names(&["c.txt"]));
    assert!(!r.refreshed);
    assert!(r.save.is_none());
}

#[test]
fn stale_snapshot_is_replaced() {
    let today = 20000;
    let l = names(&["b.txt", "c.txt"]);
    let s = Snapshot { captured_at: today - 3, entries: names(&["a.txt", "b.txt"]) };
    let r = run(&l, Some(&s), today, false);
    assert!(r.refreshed);
    assert!(r.save.is_some());
}

#[test]
fn forced_refresh_replaces_a_fresh_snapshot() {
    let today = 20000;
    let l = names(&["b.txt", "c.txt"]);
    let s = Snapshot { captured_at: today, entries: names(&["a.txt", "b.txt"]) };
    let r = run(&l, Some(&s), today, true);
    assert!(r.refreshed);
    assert_eq!(r.save.unwrap().entries, l);
}

#[test]
fn stale_but_unchanged_stores_nothing() {
    let l = names(&["a"]);
    let s = Snapshot { captured_at: 3, entries: names(&["a"]) };
    let r = run(&l, Some(&s), 4, true);
    assert!(!r.refreshed);
    assert!(r.save.is_none());
}

#[test]
fn end_to_end_yesterday() {
    let today = 20000;
    let cache = format_snapshot(&Snapshot { captured_at: today - 1, entries: names(&["a.txt", "b.txt"]) });
    let l = names(&["b.txt", "c.txt"]);
    let (r, problem) = run_with_cache(&l, Some(cache.as_str()), today, false);
    assert_eq!(problem, None);
    assert!(!r.first_run);
    assert_eq!(r.added, names(&["c.txt"]));
    assert_eq!(r.removed, names(&["a.txt"]));
    assert!(r.refreshed);
    let saved = r.save.unwrap();
    assert_eq!(saved.captured_at, today);
    assert_eq!(saved.entries, names(&["b.txt", "c.txt"]));
    assert_eq!(format_snapshot(&saved), "[TIME]\n20000\n[FILES]\nb.txt\nc.txt");
}

#[test]
fn first_run_seeds_the_snapshot() {
    let today = 20000;
    let l = names(&["x"]);
    let (r, problem) = run_with_cache(&l, None, today, false);
    assert_eq!(problem, None);
    assert!(r.first_run);
    assert!(r.added.is_empty());
    assert!(r.removed.is_empty());
    assert!(!r.refreshed);
    let saved = r.save.unwrap();
    assert_eq!(saved.captured_at, today);
    assert_eq!(saved.entries, names(&["x"]));
}

#[test]
fn corrupt_cache_counts_as_stale_and_empty() {
    let l = names(&["x", "y"]);
    let (r, problem) = run_with_cache(&l, Some("[TIME]\n20000\nx\n"), 20000, false);
    assert_eq!(problem, Some(Corruption::MissingFiles));
    assert!(!r.first_run);
    assert_eq!(r.added, names(&["x", "y"]));
    assert!(r.removed.is_empty());
    assert!(r.refreshed);
    assert_eq!(r.save.unwrap().captured_at, 20000);
}

#[test]
fn days_and_staleness() {
    assert_eq!(SECONDS_PER_DAY, 86400);
    assert_eq!(day_of(0), 0);
    assert_eq!(day_of(86399), 0);
    assert_eq!(day_of(86400 * 20000 + 5), 20000);
    assert_eq!(day_of(u64::MAX), (u64::MAX / 86400) as i64);
    assert!(!is_stale(5, 5, false));
    assert!(is_stale(4, 5, false));
    assert!(is_stale(5, 5, true));
}
