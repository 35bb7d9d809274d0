use rusty_editor::document::Document;
use rusty_editor::editor::{ControlSignal, Editor, EditorEvent};

fn cv(s: &str) -> Vec<char> {
    s.chars().collect()
}

fn editor_on(text: &str) -> Editor {
    let doc = Document::from_chars(&cv(text));
    Editor::new(doc, "scratch.txt".to_string())
}

fn line_strings(ed: &Editor) -> Vec<String> {
    ed.document().lines().iter().map(|l| l.iter().collect::<String>()).collect()
}

#[test]
fn scenario_move_enter_backspace() {
    let mut ed = editor_on("ab\ncd");
    assert_eq!((ed.cursor_x(), ed.cursor_y()), (0, 0));
    assert_eq!(ed.apply(EditorEvent::MoveRight), ControlSignal::Continue);
    assert_eq!(ed.apply(EditorEvent::MoveRight), ControlSignal::Continue);
    assert_eq!((ed.cursor_x(), ed.cursor_y()), (2, 0));
    ed.apply(EditorEvent::Enter);
    assert_eq!(
        line_strings(&ed),
        vec!["ab".to_string(), String::new(), "cd".to_string()]
    );
    assert_eq!((ed.cursor_x(), ed.cursor_y()), (0, 1));
    ed.apply(EditorEvent::Backspace);
    assert_eq!(line_strings(&ed), vec!["ab".to_string(), "cd".to_string()]);
    assert_eq!((ed.cursor_x(), ed.cursor_y()), (2, 0));
}

#[test]
fn scenario_insert_then_backspace() {
    let mut ed = editor_on("x");
    ed.apply(EditorEvent::InsertChar('y'));
    assert_eq!(line_strings(&ed), vec!["yx".to_string()]);
    assert_eq!((ed.cursor_x(), ed.cursor_y()), (1, 0));
    assert!(ed.is_dirty());
    ed.apply(EditorEvent::Backspace);
    assert_eq!(line_strings(&ed), vec!["x".to_string()]);
    assert_eq!((ed.cursor_x(), ed.cursor_y()), (0, 0));
}

#[test]
fn vertical_move_clamps_column_to_shorter_line() {
    let mut ed = editor_on("abcd\nx");
    for _ in 0..4 {
        ed.apply(EditorEvent::MoveRight);
    }
    assert_eq!((ed.cursor_x(), ed.cursor_y()), (4, 0));
    ed.apply(EditorEvent::MoveDown);
    assert_eq!((ed.cursor_x(), ed.cursor_y()), (1, 1));
    ed.apply(EditorEvent::MoveUp);
    assert_eq!((ed.cursor_x(), ed.cursor_y()), (1, 0));
}

#[test]
fn moves_at_boundaries_are_ignored() {
    let mut ed = editor_on("ab");
    ed.apply(EditorEvent::MoveLeft);
    ed.apply(EditorEvent::MoveUp);
    ed.apply(EditorEvent::MoveDown);
    assert_eq!((ed.cursor_x(), ed.cursor_y()), (0, 0));
    ed.apply(EditorEvent::MoveRight);
    ed.apply(EditorEvent::MoveRight);
    ed.apply(EditorEvent::MoveRight);
    assert_eq!((ed.cursor_x(), ed.cursor_y()), (2, 0));
    assert!(!ed.is_dirty());
}

#[test]
fn backspace_at_origin_is_ignored() {
    let mut ed = editor_on("ab");
    ed.apply(EditorEvent::Backspace);
    assert_eq!(line_strings(&ed), vec!["ab".to_string()]);
    assert_eq!((ed.cursor_x(), ed.cursor_y()), (0, 0));
    assert!(!ed.is_dirty());
}

#[test]
fn inserting_a_line_feed_is_refused() {
    let mut ed = editor_on("ab");
    ed.apply(EditorEvent::InsertChar('\n'));
    assert_eq!(line_strings(&ed), vec!["ab".to_string()]);
    assert!(!ed.is_dirty());
}

#[test]
fn typing_works_on_an_empty_file() {
    let mut ed = editor_on("");
    ed.apply(EditorEvent::InsertChar('h'));
    ed.apply(EditorEvent::InsertChar('i'));
    assert_eq!(line_strings(&ed), vec!["hi".to_string()]);
    assert_eq!((ed.cursor_x(), ed.cursor_y()), (2, 0));
}

#[test]
fn quit_on_clean_buffer_exits_at_once() {
    let mut ed = editor_on("ab");
    assert_eq!(ed.apply(EditorEvent::Quit), ControlSignal::Quit);
}

#[test]
fn quit_on_dirty_buffer_warns_then_exits_on_repeat() {
    let mut ed = editor_on("ab");
    ed.apply(EditorEvent::InsertChar('z'));
    assert_eq!(ed.apply(EditorEvent::Quit), ControlSignal::WarnUnsaved);
    assert!(ed.is_dirty());
    assert!(ed.quit_override_pending());
    assert_eq!(ed.apply(EditorEvent::Quit), ControlSignal::Quit);
}

#[test]
fn any_other_event_disarms_the_force_quit_window() {
    let mut ed = editor_on("ab");
    ed.apply(EditorEvent::InsertChar('z'));
    assert_eq!(ed.apply(EditorEvent::Quit), ControlSignal::WarnUnsaved);
    ed.apply(EditorEvent::MoveLeft);
    assert!(!ed.quit_override_pending());
    assert_eq!(ed.apply(EditorEvent::Quit), ControlSignal::WarnUnsaved);
}

#[test]
fn timeout_disarms_the_force_quit_window() {
    let mut ed = editor_on("ab");
    ed.apply(EditorEvent::InsertChar('z'));
    assert_eq!(ed.apply(EditorEvent::Quit), ControlSignal::WarnUnsaved);
    ed.clear_quit_override();
    assert!(!ed.quit_override_pending());
    assert_eq!(ed.apply(EditorEvent::Quit), ControlSignal::WarnUnsaved);
}

#[test]
fn save_requests_a_write_and_mark_saved_clears_dirty() {
    let mut ed = editor_on("ab");
    ed.apply(EditorEvent::InsertChar('z'));
    assert!(ed.is_dirty());
    assert_eq!(ed.apply(EditorEvent::Save), ControlSignal::SaveRequested);
    assert!(ed.is_dirty());
    ed.mark_saved();
    assert!(!ed.is_dirty());
    assert_eq!(ed.apply(EditorEvent::Quit), ControlSignal::Quit);
}

#[test]
fn save_then_reload_round_trips_the_edited_buffer() {
    let mut ed = editor_on("ab\ncd");
    ed.apply(EditorEvent::MoveRight);
    ed.apply(EditorEvent::Enter);
    let before = line_strings(&ed);
    let saved = ed.document().to_chars();
    let reloaded = Document::from_chars(&saved);
    let after: Vec<String> =
        reloaded.lines().iter().map(|l| l.iter().collect::<String>()).collect();
    assert_eq!(after, before);
}

#[test]
fn filename_is_kept_for_the_session() {
    let ed = editor_on("ab");
    assert_eq!(ed.filename(), "scratch.txt");
}
