//! What is set by a typed line.

use yumete_core::buffer::Syntax;
use yumete_core::editor::Editor;
use yumete_core::editor::Key;
use yumete_core::keymap::Layout;

/// `text` typed into a fresh editor, with the cursor at the top.
fn typed(text: &str) -> Editor {
    let mut ed = Editor::new();
    ed.current_buffer_mut().set_syntax(Syntax::Text);
    ed.on_key(Key::Char('i'));
    for c in text.chars() {
        ed.on_key(if c == '\n' { Key::Enter } else { Key::Char(c) });
    }
    ed.on_key(Key::Esc);
    ed.on_key(Key::Char('g'));
    ed.on_key(Key::Char('g'));
    ed.current_buffer_mut().set_syntax(Syntax::Markdown);
    ed
}

/// Presses the keys of `keys`, one by one.
fn press(ed: &mut Editor, keys: &str) {
    for c in keys.chars() {
        ed.on_key(Key::Char(c));
    }
}

/// Presses the keys of `s`, with a line break for the enter key.
fn type_keys(ed: &mut Editor, s: &str) {
    for c in s.chars() {
        ed.on_key(if c == '\n' { Key::Enter } else { Key::Char(c) });
    }
}

#[test]
fn the_wheel_step_can_be_said_and_asked_about() {
    let mut ed = typed("那年冬天，山下起了大雪。");
    assert_eq!(ed.wheel_step(), 3, "three, as a terminal scrolls three");

    ed.execute("wheel").unwrap();
    assert!(ed.status().contains('3'), "{}", ed.status());
    assert_eq!(ed.wheel_step(), 3, "asking changes nothing");

    ed.execute("wheel 1").unwrap();
    assert_eq!(ed.wheel_step(), 1);

    ed.execute("wheel 0").unwrap();
    assert_eq!(ed.wheel_step(), 1);

    assert!(ed.execute("wheel 三").is_err(), "a word is not a number");
}

#[test]
fn a_measure_is_a_width_to_write_to_in_either_layout() {
    let mut ed = typed("那年冬天，山下起了大雪。");
    ed.set_wrap_width(120);
    assert_eq!(ed.wrap_width(), Some(120), "the window, to begin with");

    ed.execute("view-wrap 50").unwrap();
    assert_eq!(ed.measure(), Some(50));
    ed.set_wrap_width(120);
    assert_eq!(ed.wrap_width(), Some(50));

    ed.set_wrap_width(30);
    assert_eq!(ed.wrap_width(), Some(30));

    ed.set_soft_wrap(false);
    ed.execute("view-wrap 40").unwrap();
    assert!(ed.soft_wrap());

    ed.execute("layout vertical").unwrap();
    ed.execute("view-wrap 12").unwrap();
    assert_eq!(ed.zong_length(), 12);

    ed.execute("view-wrap").unwrap();
    assert_eq!(ed.measure(), Some(12), "`:view-wrap` is not `:view-wrap 0`");
    ed.execute("view-wrap 0").unwrap();
    assert_eq!(ed.measure(), None);
    ed.set_wrap_width(120);
    assert_eq!(ed.wrap_width(), None, "vertical does not wrap");

    assert!(ed.execute("view-wrap wide").is_err(), "not a width");
}

#[test]
fn wrap_on_and_off_are_refused_in_vertical_and_say_why() {
    let mut ed = typed("那年冬天，山下起了大雪。");
    ed.execute("layout vertical").unwrap();
    assert!(ed.soft_wrap(), "on, as it always is");

    ed.execute("view-wrap off").unwrap();
    assert!(ed.soft_wrap(), "…and untouched: there was nothing to turn");
    assert!(ed.status().contains("縱書不折行"), "{}", ed.status());

    ed.execute("view-wrap 12").unwrap();
    assert_eq!(ed.zong_length(), 12);

    ed.execute("layout horizontal").unwrap();
    ed.execute("view-wrap off").unwrap();
    assert!(!ed.soft_wrap());
}

#[test]
fn hanging_punctuation_listens_to_the_word_it_is_given() {
    let mut ed = typed("「春」。\n");
    assert!(ed.execute("layout vertical").is_ok());
    assert!(ed.execute("view-dense off").is_ok());
    for _ in 0..2 {
        assert!(ed.execute("view-hanging off").is_ok());
        assert!(!ed.hanging_punctuation(), "`:view-hanging off` turned it on: {}", ed.status());
    }
    for _ in 0..2 {
        assert!(ed.execute("view-hanging on").is_ok());
        assert!(ed.hanging_punctuation(), "`:view-hanging on` turned it off: {}", ed.status());
    }
    assert!(ed.execute("view-hanging").is_ok());
    assert!(!ed.hanging_punctuation());
    assert!(ed.execute("view-hanging on").is_ok());
    assert!(ed.execute("view-hanging of").is_ok());
    assert!(!ed.hanging_punctuation(), "`:view-hanging of` is what the menu offers");
}

#[test]
fn a_command_says_what_it_is_waiting_for() {
    let mut ed = Editor::new();
    ed.set_dense(true);
    ed.execute(":view-hanging on").unwrap();
    assert!(!ed.hanging_punctuation(), "{}", ed.status());
    let said = ed.status().to_string();
    assert!(said.contains("竪排") && said.contains("密排關"), "{said}");
    assert!(said.contains("force"), "{said}");

    ed.execute(":view-hanging on force").unwrap();
    assert_eq!(ed.layout(), Layout::Vertical);
    assert!(!ed.dense());
    assert!(ed.hanging_punctuation(), "{}", ed.status());

    ed.execute(":view-hanging off").unwrap();
    assert!(!ed.hanging_punctuation());
    assert!(!ed.status().contains("需要"), "{}", ed.status());
}

#[test]
fn the_sentence_pair_does_not_flip_with_the_layout() {
    let text = "第一句。第二句。第三句。\n";
    let end_of_first = |vertical: bool| {
        let mut ed = typed(text);
        if vertical {
            ed.set_layout(Layout::Vertical);
        }
        press(&mut ed, "L");
        ed.selection()
    };
    assert_eq!(end_of_first(false), (0, 4), "橫排：第一句。");
    assert_eq!(end_of_first(true), (0, 4), "縱書：the same sentence");

    let mut ed = typed(text);
    press(&mut ed, "LL");
    assert_eq!(ed.selection(), (4, 8), "第二句。");
    let mut ed = typed(text);
    press(&mut ed, "3L");
    assert_eq!(ed.selection(), (8, 12), "a count goes as far");
}

#[test]
fn a_capital_turns_the_page_the_way_its_lowercase_moves() {
    let mut ed = typed(&"字\n".repeat(400));
    ed.set_layout(Layout::Vertical);
    ed.set_page(20, 30);
    ed.execute("200").unwrap();
    let middle = ed.cursor_line();

    press(&mut ed, "J");
    assert!(ed.cursor_line() > middle, "J reads on, as j does");
    press(&mut ed, "K");
    assert_eq!(ed.cursor_line(), middle, "and K comes back");

    ed.set_layout(Layout::Horizontal);
    ed.execute("200").unwrap();
    press(&mut ed, "J");
    assert!(ed.cursor_line() > middle, "J reads on");
    press(&mut ed, "K");
    assert_eq!(ed.cursor_line(), middle);
}

#[test]
fn a_count_moves_that_many_zong() {
    let mut ed = typed("一二三四五六七八九十");
    ed.set_layout(Layout::Vertical);
    ed.set_zong_length(32);
    type_keys(&mut ed, "gg");
    let before = ed.cursor();
    type_keys(&mut ed, "5j");
    assert_eq!(ed.cursor() - before, 5, "vertical hjkl dropped the count");
}
