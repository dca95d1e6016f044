use regex::Regex;
use svd2rust::highlight::{highlight, slice, Segment, Style, NAME_MARKS};
use svd2rust::search::create_regex;

fn marks() -> Regex {
    Regex::new(NAME_MARKS).unwrap()
}

fn shown(text: &str, segments: &[Segment]) -> Vec<(String, Style)> {
    segments.iter().map(|s| (text[s.start..s.end].to_string(), s.style)).collect()
}

fn parts(items: &[(&str, Style)]) -> Vec<(String, Style)> {
    items.iter().map(|(t, s)| (t.to_string(), *s)).collect()
}

#[test]
fn a_name_loses_its_marks_and_is_not_searched() {
    let text = "  - ||UART|| the uart unit";
    let segments = highlight(text, &marks(), &create_regex("uart").unwrap());
    assert_eq!(
        shown(text, &segments),
        parts(&[
            ("  - ", Style::Plain),
            ("UART", Style::Name),
            (" the ", Style::Plain),
            ("uart", Style::Match),
            (" unit", Style::Plain),
        ])
    );
    assert_eq!(
        segments,
        vec![
            Segment { start: 0, end: 4, style: Style::Plain },
            Segment { start: 6, end: 10, style: Style::Name },
            Segment { start: 12, end: 17, style: Style::Plain },
            Segment { start: 17, end: 21, style: Style::Match },
            Segment { start: 21, end: 26, style: Style::Plain },
        ]
    );
}

#[test]
fn text_without_names_or_matches_is_one_plain_segment() {
    let text = "nothing here";
    assert_eq!(
        highlight(text, &marks(), &create_regex("uart").unwrap()),
        vec![Segment { start: 0, end: 12, style: Style::Plain }]
    );
    assert_eq!(
        highlight("", &marks(), &create_regex("uart").unwrap()),
        vec![Segment { start: 0, end: 0, style: Style::Plain }]
    );
}

#[test]
fn each_line_has_its_own_name() {
    let text = "||A|| x\n||B|| ax";
    let segments = highlight(text, &marks(), &create_regex("a").unwrap());
    assert_eq!(
        shown(text, &segments),
        parts(&[
            ("", Style::Plain),
            ("A", Style::Name),
            (" x\n", Style::Plain),
            ("B", Style::Name),
            (" ", Style::Plain),
            ("a", Style::Match),
            ("x", Style::Plain),
        ])
    );
}

#[test]
fn adjacent_matches_have_empty_plain_text_between() {
    let text = "aab";
    let segments = highlight(text, &marks(), &create_regex("a").unwrap());
    assert_eq!(
        shown(text, &segments),
        parts(&[
            ("", Style::Plain),
            ("a", Style::Match),
            ("", Style::Plain),
            ("a", Style::Match),
            ("b", Style::Plain),
        ])
    );
}

#[test]
fn offsets_count_bytes_and_stay_between_characters() {
    let text = "é ||ñ|| ü";
    let segments = highlight(text, &marks(), &create_regex("ü").unwrap());
    assert_eq!(
        shown(text, &segments),
        parts(&[
            ("é ", Style::Plain),
            ("ñ", Style::Name),
            (" ", Style::Plain),
            ("ü", Style::Match),
            ("", Style::Plain),
        ])
    );
}

#[test]
fn a_mark_regex_with_short_matches_marks_nothing() {
    let text = "a|b";
    let short = Regex::new("\\|").unwrap();
    assert_eq!(
        highlight(text, &short, &create_regex("b").unwrap()),
        vec![
            Segment { start: 0, end: 2, style: Style::Plain },
            Segment { start: 2, end: 3, style: Style::Match },
            Segment { start: 3, end: 3, style: Style::Plain },
        ]
    );
}

#[test]
fn slice_cuts_between_characters_only() {
    assert_eq!(slice("héllo", 0, 3), Some("hé"));
    assert_eq!(slice("héllo", 1, 3), Some("é"));
    assert_eq!(slice("héllo", 2, 3), None);
    assert_eq!(slice("héllo", 3, 1), None);
    assert_eq!(slice("héllo", 0, 7), None);
    assert_eq!(slice("héllo", 6, 6), Some(""));
}
