//! Doing it again.

use yumete_core::buffer::Syntax;
use yumete_core::editor::Editor;
use yumete_core::editor::Key;
use yumete_core::verbs::WRITING_MAX;

/// `text` typed into a fresh editor, with the cursor at the top.
fn typed(text: &str) -> Editor {
    let mut ed = Editor::new();
    ed.current_buffer_mut().set_syntax(Syntax::Text);
    ed.on_key(Key::Char('i'));
    for c in text.chars() {
        ed.on_key(if c == '\n' { Key::Enter } else { Key::Char(c) });
    }
    ed.on_key(Key::Esc);
    ed.on_key(Key::Char('g'));
    ed.on_key(Key::Char('g'));
    ed.current_buffer_mut().set_syntax(Syntax::Markdown);
    ed
}

/// Presses the keys of `keys`, one by one.
fn press(ed: &mut Editor, keys: &str) {
    for c in keys.chars() {
        ed.on_key(Key::Char(c));
    }
}

/// Presses the keys of `s`, with a line break for the enter key.
fn type_keys(ed: &mut Editor, s: &str) {
    for c in s.chars() {
        ed.on_key(if c == '\n' { Key::Enter } else { Key::Char(c) });
    }
}

#[test]
fn a_dot_repeats_an_ime_replace() {
    let mut ed = typed("錢錢錢\n");
    ed.on_key(Key::Char('r'));
    ed.insert_committed("銀");
    press(&mut ed, "l.");
    assert_eq!(ed.current_buffer().text(), "銀銀錢\n");
    assert!(!ed.takes_a_character(), "`.` must not leave `r` waiting");
    press(&mut ed, "l.");
    assert_eq!(ed.current_buffer().text(), "銀銀銀\n");
}

#[test]
fn a_macro_records_and_replays() {
    let mut ed = typed("一二三四五六");
    press(&mut ed, "gg");
    press(&mut ed, "Q");
    press(&mut ed, "r");
    ed.on_key(Key::Char('〇'));
    press(&mut ed, "l");
    press(&mut ed, "Q");
    assert_eq!(ed.current_buffer().text(), "〇二三四五六");

    press(&mut ed, "q");
    assert_eq!(ed.current_buffer().text(), "〇〇三四五六");
    press(&mut ed, "3q");
    assert_eq!(ed.current_buffer().text(), "〇〇〇〇〇六");
}

#[test]
fn dot_repeats_the_last_insert() {
    let mut ed = typed("");
    ed.on_key(Key::Char('i'));
    for c in "春".chars() {
        ed.on_key(Key::Char(c));
    }
    ed.on_key(Key::Esc);
    press(&mut ed, "..");
    assert_eq!(ed.current_buffer().text(), "春春春");
    press(&mut ed, "2.");
    assert_eq!(ed.current_buffer().text(), "春春春春春");
}

#[test]
fn a_repeat_can_never_repeat_itself() {
    let mut ed = typed("一二三四五六七八九十\n");
    ed.execute("1").unwrap();
    ed.on_key(Key::Char('d'));
    ed.on_key(Key::Char('3'));
    ed.on_key(Key::Char('.'));
    ed.on_key(Key::Char('.'));
    ed.on_key(Key::Char('.'));
    assert_eq!(ed.current_buffer().text(), "七八九十\n");
}

#[test]
fn dot_repeats_the_change_and_the_count_it_was_given() {
    let mut ed = typed("一\n二\n");
    ed.goto_line(1);
    press(&mut ed, "3>");
    let three = ed.current_buffer().text();
    press(&mut ed, "j");
    ed.on_key(Key::Char('.'));
    let lines: Vec<usize> = ed
        .current_buffer()
        .text()
        .lines()
        .map(|l| l.len() - l.trim_start().len())
        .collect();
    assert_eq!(lines[0], lines[1], "the same three levels: {three:?}");
}

#[test]
fn switching_buffers_is_not_the_change_dot_repeats() {
    let mut ed = typed("一\n");
    ed.execute("new").unwrap();
    ed.on_key(Key::Char('i'));
    ed.on_key(Key::Char('甲'));
    ed.on_key(Key::Esc);
    ed.goto_line(1);
    press(&mut ed, ">");
    let indented = ed.current_buffer().text();
    press(&mut ed, "gp");
    press(&mut ed, "gn");
    ed.on_key(Key::Char('.'));
    assert_ne!(ed.current_buffer().text(), indented, "`.` indented again");
    assert!(ed.current_buffer().text().contains("甲"), "…in this buffer");
}

#[test]
fn a_macro_keeps_the_key_a_sequence_was_waiting_for() {
    let mut ed = typed("aQb\ncQd\n");
    ed.goto_line(1);
    press(&mut ed, "Q");
    press(&mut ed, "fQ");
    press(&mut ed, "x");
    press(&mut ed, "Q");
    assert_eq!(ed.recorded_keys(), "fQx", "the `Q` of `fQ` is kept");

    ed.goto_line(2);
    press(&mut ed, "q");
    assert_eq!(
        ed.current_buffer().text(),
        "aQb\ncQd\n",
        "replay finds Q and selects the line, changing nothing"
    );
}

#[test]
fn a_full_stop_typed_into_the_text_is_still_an_edit() {
    let mut ed = typed("第一行。\n第二行。\n");
    press(&mut ed, "gg");
    press(&mut ed, "i");
    type_keys(&mut ed, "3.14");
    ed.on_key(Key::Esc);
    press(&mut ed, "j");
    press(&mut ed, "i");
    type_keys(&mut ed, "qu");
    ed.on_key(Key::Esc);
    assert!(ed.current_buffer().text().contains("qu"));

    press(&mut ed, "j");
    ed.on_key(Key::Char('.'));
    let text = ed.current_buffer().text();
    assert_eq!(text.matches("qu").count(), 2, "{text}");
    assert_eq!(text.matches("3.14").count(), 1, "{text}");

    press(&mut ed, "3");
    ed.on_key(Key::Char('.'));
    let text = ed.current_buffer().text();
    assert!(text.matches("qu").count() > 2, "{text}");
}

#[test]
fn dot_repeats_the_change_it_actually_follows() {
    let mut ed = Editor::new();
    ed.on_key(Key::Char('i'));
    type_keys(&mut ed, "abcdef");
    ed.on_key(Key::Esc);
    type_keys(&mut ed, "gg");
    type_keys(&mut ed, "d.");
    assert_eq!(ed.current_buffer().text(), "cdef", "d then . deletes twice");
    ed.on_key(Key::Char('i'));
    type_keys(&mut ed, "X");
    ed.on_key(Key::Esc);
    ed.on_key(Key::Char('.'));
    assert_eq!(ed.current_buffer().text(), "XXcdef");
}

#[test]
fn dot_repeats_an_operator_so_the_proofreading_loop_works() {
    let mut ed = typed("裏面\n那裏\n這裏\n");
    press(&mut ed, "gg");
    press(&mut ed, "/裏");
    ed.on_key(Key::Enter);
    press(&mut ed, "r");
    ed.on_key(Key::Char('裡'));
    press(&mut ed, "n");
    ed.on_key(Key::Char('.'));
    press(&mut ed, "n");
    ed.on_key(Key::Char('.'));
    assert_eq!(ed.current_buffer().text(), "裡面\n那裡\n這裡\n");
}

#[test]
fn a_macro_asked_for_a_million_stops_at_the_ceiling() {
    let mut ed = typed("雪\n");
    press(&mut ed, "Qxy");
    press(&mut ed, "Q");
    press(&mut ed, "1000000q");
    assert_eq!(
        ed.status,
        yumete_core::say::writing_ceiling(WRITING_MAX),
        "a macro may write, so its count is a writing count"
    );
}
