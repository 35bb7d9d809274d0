use rusty_editor::document::Document;

fn cv(s: &str) -> Vec<char> {
    s.chars().collect()
}

fn line_strings(d: &Document) -> Vec<String> {
    d.lines().iter().map(|l| l.iter().collect::<String>()).collect()
}

#[test]
fn load_empty_text_yields_one_empty_line() {
    let d = Document::from_chars(&cv(""));
    assert_eq!(line_strings(&d), vec![String::new()]);
    assert_eq!(d.line_count(), 1);
}

#[test]
fn load_splits_on_line_feeds() {
    let d = Document::from_chars(&cv("ab\ncd"));
    assert_eq!(line_strings(&d), vec!["ab".to_string(), "cd".to_string()]);
}

#[test]
fn load_drops_trailing_terminator() {
    let d = Document::from_chars(&cv("ab\ncd\n"));
    assert_eq!(line_strings(&d), vec!["ab".to_string(), "cd".to_string()]);
}

#[test]
fn load_keeps_interior_empty_lines() {
    let d = Document::from_chars(&cv("a\n\nb"));
    assert_eq!(
        line_strings(&d),
        vec!["a".to_string(), String::new(), "b".to_string()]
    );
}

#[test]
fn load_strips_carriage_return_of_crlf() {
    let d = Document::from_chars(&cv("ab\r\ncd\r\n"));
    assert_eq!(line_strings(&d), vec!["ab".to_string(), "cd".to_string()]);
}

#[test]
fn load_keeps_lone_trailing_carriage_return() {
    let d = Document::from_chars(&cv("ab\r"));
    assert_eq!(line_strings(&d), vec!["ab\r".to_string()]);
}

#[test]
fn save_joins_lines_with_line_feeds() {
    let d = Document::from_chars(&cv("ab\ncd"));
    let out: String = d.to_chars().iter().collect();
    assert_eq!(out, "ab\ncd\n");
}

#[test]
fn save_of_single_empty_line_is_one_terminator() {
    let d = Document::from_chars(&cv(""));
    let out: String = d.to_chars().iter().collect();
    assert_eq!(out, "\n");
}

#[test]
fn save_then_reload_round_trips() {
    let d = Document::from_chars(&cv("one\ntwo\n\nfour"));
    let before = line_strings(&d);
    let saved = d.to_chars();
    let reloaded = Document::from_chars(&saved);
    assert_eq!(line_strings(&reloaded), before);
}

#[test]
fn insert_char_at_offset() {
    let mut d = Document::from_chars(&cv("ac"));
    d.insert_char(0, 1, 'b');
    assert_eq!(line_strings(&d), vec!["abc".to_string()]);
}

#[test]
fn delete_char_before_removes_left_neighbour() {
    let mut d = Document::from_chars(&cv("abc"));
    let deleted = d.delete_char_before(0, 2);
    assert!(deleted);
    assert_eq!(line_strings(&d), vec!["ac".to_string()]);
}

#[test]
fn delete_char_before_at_line_start_does_nothing() {
    let mut d = Document::from_chars(&cv("abc"));
    let deleted = d.delete_char_before(0, 0);
    assert!(!deleted);
    assert_eq!(line_strings(&d), vec!["abc".to_string()]);
}

#[test]
fn merge_with_previous_appends_and_reports_offset() {
    let mut d = Document::from_chars(&cv("ab\ncd"));
    let off = d.merge_with_previous(1);
    assert_eq!(off, Some(2));
    assert_eq!(line_strings(&d), vec!["abcd".to_string()]);
}

#[test]
fn merge_with_previous_on_first_line_is_refused() {
    let mut d = Document::from_chars(&cv("ab\ncd"));
    let off = d.merge_with_previous(0);
    assert_eq!(off, None);
    assert_eq!(line_strings(&d), vec!["ab".to_string(), "cd".to_string()]);
}

#[test]
fn split_line_cuts_at_offset() {
    let mut d = Document::from_chars(&cv("abcd"));
    d.split_line(0, 2);
    assert_eq!(line_strings(&d), vec!["ab".to_string(), "cd".to_string()]);
}

#[test]
fn line_accessor_bounds() {
    let d = Document::from_chars(&cv("ab"));
    assert!(d.line(0).is_some());
    assert!(d.line(1).is_none());
    assert_eq!(d.line_len(0), 2);
}
