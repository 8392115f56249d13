//! Text fields, through the real editor and the fonts of the machine.

use cosmic_text::fontdb::Database;
use cosmic_text::{Edit, FontSystem};

use rustydlp::input::{can_shape, fits_line, strip_newlines, system_fonts, InputState};
use rustydlp::shell::Motion;

fn state() -> (FontSystem, InputState) {
    let mut fonts = system_fonts();
    assert!(can_shape(&mut fonts), "the tests need a font");
    let input = InputState::new(&mut fonts).placeholder("Paste a video or playlist URL");
    (fonts, input)
}

/// Where the caret is drawn.
fn caret_x(s: &InputState) -> f32 {
    s.editor.cursor_position().map_or(0.0, |(x, _)| x as f32)
}

/// Typing and deleting have to round-trip through the editor's own buffer,
/// since that buffer is the single source of truth for the field.
#[test]
fn typing_and_backspace_round_trip() {
    let (mut fonts, mut s) = state();
    for c in "abc".chars() {
        s.insert_char(&mut fonts, c);
    }
    assert_eq!(s.value(), "abc");
    s.backspace(&mut fonts);
    assert_eq!(s.value(), "ab");
}

/// The field is single-line: a typed newline is dropped and a pasted one is
/// stripped, so a multi-line clipboard cannot turn one field into two lines.
#[test]
fn newlines_never_enter_a_single_line_field() {
    let (mut fonts, mut s) = state();
    s.insert_char(&mut fonts, 'a');
    s.insert_char(&mut fonts, '\n');
    s.insert_char(&mut fonts, 'b');
    assert_eq!(s.value(), "ab");

    s.set_value(&mut fonts, "");
    s.paste(&mut fonts, "https://x/y\nhttps://a/b\r\n");
    assert_eq!(s.value(), "https://x/yhttps://a/b");
    assert_eq!(strip_newlines("a\r\nb\n"), "ab");
}

/// Pasting is the field's main interaction, so it has to land at the caret
/// and replace whatever was selected.
#[test]
fn paste_replaces_the_selection() {
    let (mut fonts, mut s) = state();
    s.set_value(&mut fonts, "old");
    s.select_all(&mut fonts);
    s.paste(&mut fonts, "https://example/v");
    assert_eq!(s.value(), "https://example/v");
}

/// set_value leaves the caret at the end, which is what the preset editor
/// needs when it loads a preset into the fields.
#[test]
fn set_value_leaves_the_caret_at_the_end() {
    let (mut fonts, mut s) = state();
    s.set_value(&mut fonts, "1080");
    s.insert_char(&mut fonts, 'p');
    assert_eq!(s.value(), "1080p");
}

/// The caret advances as text is typed, and Home returns it to the origin.
#[test]
fn the_caret_tracks_the_cursor() {
    let (mut fonts, mut s) = state();
    s.set_value(&mut fonts, "some text");
    let at_end = caret_x(&s);
    assert!(at_end > 0.0, "caret should have advanced past the origin");
    s.motion(&mut fonts, Motion::Home);
    assert_eq!(caret_x(&s), 0.0);
    s.insert_char(&mut fonts, '>');
    assert_eq!(s.value(), ">some text");
    s.motion(&mut fonts, Motion::End);
    s.motion(&mut fonts, Motion::Left);
    s.motion(&mut fonts, Motion::Right);
    s.insert_char(&mut fonts, '<');
    assert_eq!(s.value(), ">some text<");
}

/// Non-ASCII has to behave: deleting removes one grapheme, not one byte, so
/// a CJK filename cannot be corrupted mid-character.
#[test]
fn backspace_deletes_a_whole_character_not_a_byte() {
    let (mut fonts, mut s) = state();
    s.set_value(&mut fonts, "日本語");
    s.backspace(&mut fonts);
    assert_eq!(s.value(), "日本");
}

/// Select-all then copy yields the whole field, which is what Ctrl+A Ctrl+C
/// has to do.
#[test]
fn select_all_then_copy_returns_everything() {
    let (mut fonts, mut s) = state();
    s.set_value(&mut fonts, "C:/dl/video.mkv");
    s.select_all(&mut fonts);
    assert_eq!(s.copy().as_deref(), Some("C:/dl/video.mkv"));
    assert!(s.has_span(), "a selection should have a span");
}

/// Left and right go one character at a time, and stay at the two ends.
#[test]
fn a_step_goes_over_one_character() {
    let (mut fonts, mut s) = state();
    s.set_value(&mut fonts, "ab c ");
    s.motion(&mut fonts, Motion::Right);
    s.insert_char(&mut fonts, '1');
    assert_eq!(s.value(), "ab c 1");
    s.motion(&mut fonts, Motion::Left);
    s.motion(&mut fonts, Motion::Left);
    s.insert_char(&mut fonts, '2');
    assert_eq!(s.value(), "ab c2 1");
    s.motion(&mut fonts, Motion::Home);
    s.motion(&mut fonts, Motion::Left);
    s.insert_char(&mut fonts, '3');
    s.motion(&mut fonts, Motion::Right);
    s.insert_char(&mut fonts, '4');
    assert_eq!(s.value(), "3a4b c2 1");
}

/// What belongs together is stepped over together, and a text that runs from right
/// to left turns the two sides round.
#[test]
fn a_step_keeps_to_what_belongs_together() {
    let (mut fonts, mut s) = state();
    s.set_value(&mut fonts, "ae\u{301}b");
    s.motion(&mut fonts, Motion::Home);
    s.motion(&mut fonts, Motion::Right);
    s.motion(&mut fonts, Motion::Right);
    s.insert_char(&mut fonts, '|');
    assert_eq!(s.value(), "ae\u{301}|b");
    s.backspace(&mut fonts);
    s.motion(&mut fonts, Motion::Left);
    s.insert_char(&mut fonts, '|');
    assert_eq!(s.value(), "a|e\u{301}b");

    s.set_value(&mut fonts, "");
    for c in "\u{5d0}\u{5d1}".chars() {
        s.insert_char(&mut fonts, c);
    }
    s.motion(&mut fonts, Motion::Right);
    s.insert_char(&mut fonts, '|');
    assert_eq!(s.value(), "\u{5d0}|\u{5d1}");
    s.backspace(&mut fonts);
    s.motion(&mut fonts, Motion::Left);
    s.insert_char(&mut fonts, '|');
    assert_eq!(s.value(), "\u{5d0}\u{5d1}|");
}

/// An empty selection has no span.
#[test]
fn an_empty_selection_spans_nothing() {
    let (mut fonts, mut s) = state();
    assert!(!s.has_span());
    s.select_all(&mut fonts);
    assert_eq!(s.copy().as_deref(), Some(""));
    assert!(!s.has_span());
    s.set_value(&mut fonts, " a long line that no field would ever be wide enough for ");
    assert!(!s.has_span());
    s.select_all(&mut fonts);
    assert_eq!(
        s.copy().as_deref(),
        Some(" a long line that no field would ever be wide enough for ")
    );
    assert!(s.has_span());
    s.motion(&mut fonts, Motion::Home);
    assert!(!s.has_span());
}

/// Some characters end a paragraph and are no line break. They are kept, but not
/// beside text that runs from right to left.
#[test]
fn paragraphs_of_a_line_run_one_way() {
    assert!(fits_line("a\r\nb"));
    assert!(fits_line("a\u{2028}\u{5d0}"));
    for c in ['\u{1c}', '\u{1d}', '\u{1e}', '\u{85}', '\u{2029}'] {
        assert!(!fits_line(&format!("a{c}\u{5d0}")));
        assert!(fits_line(&format!("a{c}\u{65e5}")));
    }
    for c in ['\u{590}', '\u{8ff}', '\u{200f}', '\u{fb1d}', '\u{fefc}', '\u{10800}', '\u{1eeff}'] {
        assert!(!fits_line(&format!("{c}\u{2029}")));
    }
}

#[test]
fn a_field_keeps_what_ends_a_paragraph() {
    let (mut fonts, mut s) = state();
    s.set_value(&mut fonts, "a\u{2029}b\u{1c}c\u{85}d");
    assert_eq!(s.value(), "a\u{2029}b\u{1c}c\u{85}d");
    s.motion(&mut fonts, Motion::Home);
    s.motion(&mut fonts, Motion::Right);
    s.motion(&mut fonts, Motion::End);
    s.select_all(&mut fonts);
    assert!(!s.accepts("\u{2029}\u{5d0}"));
    assert!(s.accepts("x\u{2029}y"));
    s.paste(&mut fonts, "x\u{2029}y");
    s.click(&mut fonts, 0);
    s.motion(&mut fonts, Motion::End);
    assert!(s.value().contains("x\u{2029}y"));

    s.set_value(&mut fonts, "ab");
    assert!(s.accepts_char('\u{2029}') && s.accepts_char('\u{5d0}') && s.accepts_char('\n'));
    s.insert_char(&mut fonts, '\u{2029}');
    assert_eq!(s.value(), "ab\u{2029}");
    assert!(!s.accepts_char('\u{5d0}') && !s.accepts("\u{5d0}"));
    assert!(s.accepts_char('\u{85}'), "control characters are not typed");
    s.backspace(&mut fonts);
    assert!(s.accepts("\u{5d0}"));
    s.paste(&mut fonts, "\u{5d0}");
    assert!(!s.accepts("\u{2029}") && !s.accepts_char('\u{2029}'));
    assert!(s.accepts("c\u{85}"), "a control character at the very end is left out");
    s.motion(&mut fonts, Motion::Home);
    s.drag(&mut fonts, 10_000);
    assert_eq!(s.copy().as_deref(), Some("ab\u{5d0}"));
    assert!(s.accepts("c\u{2029}"), "what is replaced does not count");
}

/// Cut removes the selection and hands the text back.
#[test]
fn cut_empties_the_field_and_returns_the_text() {
    let (mut fonts, mut s) = state();
    s.set_value(&mut fonts, "abc");
    s.select_all(&mut fonts);
    assert_eq!(s.cut(&mut fonts).as_deref(), Some("abc"));
    assert_eq!(s.value(), "");
}

#[test]
fn delete_takes_the_character_behind_the_caret() {
    let (mut fonts, mut s) = state();
    s.set_value(&mut fonts, "abc");
    s.motion(&mut fonts, Motion::Home);
    s.delete(&mut fonts);
    assert_eq!(s.value(), "bc");
    s.motion(&mut fonts, Motion::End);
    s.delete(&mut fonts);
    assert_eq!(s.value(), "bc");
}

#[test]
fn dragging_selects_and_a_click_lets_go() {
    let (mut fonts, mut s) = state();
    s.set_value(&mut fonts, "abcdef");
    s.click(&mut fonts, -100);
    s.drag(&mut fonts, 10_000);
    assert_eq!(s.copy().as_deref(), Some("abcdef"));
    s.click(&mut fonts, 0);
    assert_eq!(s.copy(), None);
}

/// The caret goes to the place under the pointer, and the same places are there
/// after a click.
#[test]
fn a_click_goes_by_its_distance() {
    let (mut fonts, mut s) = state();
    s.set_value(&mut fonts, "mmmm");
    let end = caret_x(&s);
    s.motion(&mut fonts, Motion::Home);
    s.motion(&mut fonts, Motion::Right);
    let one = caret_x(&s);
    assert!(0.0 < one && one < end);
    s.click(&mut fonts, end as i32 + 50);
    s.insert_char(&mut fonts, '>');
    assert_eq!(s.value(), "mmmm>");
    s.set_value(&mut fonts, "mmmm");
    s.click(&mut fonts, one as i32);
    s.drag(&mut fonts, -5);
    assert_eq!(s.copy().as_deref(), Some("m"));
    s.drag(&mut fonts, end as i32 + 50);
    assert_eq!(s.copy().as_deref(), Some("mmm"));
    s.click(&mut fonts, -5);
    s.insert_char(&mut fonts, '<');
    assert_eq!(s.value(), "<mmmm");
    // Until a text is laid out again, there is no place under the pointer.
    s.click(&mut fonts, 10_000);
    s.insert_char(&mut fonts, '<');
    assert_eq!(s.value(), "<<mmmm");
}

#[test]
fn an_empty_field_shows_its_placeholder() {
    let (mut fonts, mut s) = state();
    assert_eq!(s.shown(), ("Paste a video or playlist URL".to_string(), true));
    s.insert_char(&mut fonts, 'x');
    assert_eq!(s.shown(), ("x".to_string(), false));
    assert!(!s.focused());
    s.set_focused(true);
    assert!(s.focused());
}

/// Without a face there is nothing to shape text with; deciding twice gives the
/// same answer.
#[test]
fn text_is_shaped_only_where_there_is_a_face() {
    let mut none = FontSystem::new_with_locale_and_db("en-US".to_string(), Database::new());
    assert!(!can_shape(&mut none));
    assert!(!can_shape(&mut none));
    let mut fonts = system_fonts();
    assert!(can_shape(&mut fonts));
    assert!(can_shape(&mut fonts));
}
