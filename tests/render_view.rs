use lsdiff::render::{pad_end, pad_start, pair_rows, render, row_line, Shown, Theme, COLUMN_WIDTH};
use nu_ansi_term::{Color, Style};

fn plain_theme() -> Theme {
    Theme {
        added: Style::default(),
        removed: Style::default(),
        filler: Style::default(),
        folder_icon: "D".to_string(),
        file_icon: "F".to_string(),
    }
}

fn shown(name: &str, is_dir: bool) -> Shown {
    Shown { name: name.to_string(), style: Style::default(), is_dir }
}

#[test]
fn padding_counts_characters() {
    assert_eq!(COLUMN_WIDTH, 20);
    assert_eq!(pad_end("ab", 4), "ab  ");
    assert_eq!(pad_start("ab", 4), "  ab");
    assert_eq!(pad_end("abcdef", 4), "abcdef");
    assert_eq!(pad_start("é", 3), "  é");
    assert_eq!(row_line("a", "b"), format!("{:<20}\t{:>20}", "a", "b"));
}

#[test]
fn rows_pair_columns_and_fill() {
    let left = vec!["a".to_string(), "b".to_string()];
    let right = vec!["c".to_string()];
    let filler = "---".to_string();
    let rows = pair_rows(&left, &right, &filler);
    assert_eq!(rows.len(), 2);
    assert_eq!(rows[0], format!("{:<20}\t{:>20}", "a", "c"));
    assert_eq!(rows[1], format!("{:<20}\t{:>20}", "b", "---"));
    assert!(pair_rows(&Vec::new(), &Vec::new(), &filler).is_empty());
}

#[test]
fn plain_view_shows_markers_icons_and_names() {
    let added = vec![shown("new", false), shown("dir", true)];
    let removed = vec![shown("old", false)];
    let rows = render(&added, &removed, &plain_theme());
    assert_eq!(rows.len(), 2);
    assert_eq!(rows[0], format!("{:<20}\t{:>20}", "+ F new", "- F old"));
    assert_eq!(rows[1], format!("{:<20}\t{:>20}", "+ D dir", "---"));
}

#[test]
fn styles_wrap_the_painted_text() {
    let mut theme = plain_theme();
    theme.added = Color::Red.normal();
    let added = vec![Shown { name: "n".to_string(), style: Color::Blue.bold(), is_dir: false }];
    let rows = render(&added, &Vec::new(), &theme);
    let left = format!("{} {}", Color::Red.paint("+"), Color::Blue.bold().paint("F n"));
    assert_eq!(rows[0], format!("{:<20}\t{:>20}", left, "---"));
    assert!(rows[0].starts_with("\u{1b}[31m+\u{1b}[0m "));
}
