//! Replacing all over a text.

use yumete_core::buffer::Syntax;
use yumete_core::editor::Editor;
use yumete_core::editor::Key;

/// `text` typed into a fresh editor, with the cursor at the top.
fn typed(text: &str) -> Editor {
    let mut ed = Editor::new();
    ed.current_buffer_mut().set_syntax(Syntax::Text);
    ed.on_key(Key::Char('i'));
    for c in text.chars() {
        ed.on_key(if c == '\n' { Key::Enter } else { Key::Char(c) });
    }
    ed.on_key(Key::Esc);
    ed.on_key(Key::Char('g'));
    ed.on_key(Key::Char('g'));
    ed.current_buffer_mut().set_syntax(Syntax::Markdown);
    ed
}

/// Presses the keys of `s`, with a line break for the enter key.
fn type_keys(ed: &mut Editor, s: &str) {
    for c in s.chars() {
        ed.on_key(if c == '\n' { Key::Enter } else { Key::Char(c) });
    }
}

#[test]
fn substitute_replaces_on_the_current_line_and_whole_file() {
    let mut ed = Editor::new();
    ed.on_key(Key::Char('i'));
    type_keys(&mut ed, "aaa\naaa");
    ed.on_key(Key::Esc);

    ed.on_key(Key::Char(':'));
    type_keys(&mut ed, "s/a/b/");
    ed.on_key(Key::Enter);
    assert_eq!(ed.current_buffer().text(), "aaa\nbaa");

    ed.on_key(Key::Char(':'));
    type_keys(&mut ed, "%s/a/b/g");
    ed.on_key(Key::Enter);
    assert_eq!(ed.current_buffer().text(), "bbb\nbbb");

    ed.on_key(Key::Char('u'));
    assert_eq!(ed.current_buffer().text(), "aaa\nbaa");
}

#[test]
fn the_f_flag_takes_the_pattern_as_the_characters_it_is() {
    let mut ed = typed("A.B\nAxB\n");
    assert!(ed.execute("%s/A.B/甲/g").is_ok(), "{}", ed.status());
    assert_eq!(ed.current_buffer().text(), "甲\n甲\n");
    let mut ed = typed("A.B\nAxB\n");
    assert!(ed.execute("%s/A.B/甲/gf").is_ok(), "{}", ed.status());
    assert_eq!(ed.current_buffer().text(), "甲\nAxB\n");

    let mut ed = typed("(注)一\n注二\n");
    assert!(ed.execute("%s/(注)/（注）/gf").is_ok(), "{}", ed.status());
    assert_eq!(ed.current_buffer().text(), "（注）一\n注二\n");

    let mut ed = typed("第1章*\n");
    assert!(ed.execute("%s/第1章*/第一章/f").is_ok(), "{}", ed.status());
    assert_eq!(ed.current_buffer().text(), "第一章\n");

    let mut ed = typed("花了 $5.00\n");
    assert!(ed.execute("%s/$5.00/$6.00/f").is_ok(), "{}", ed.status());
    assert_eq!(ed.current_buffer().text(), "花了 $6.00\n");

    let mut ed = typed("甲。乙。\n");
    assert!(ed.execute("%s/。/。\\n/gf").is_ok(), "{}", ed.status());
    assert_eq!(ed.current_buffer().text(), "甲。\n乙。\n\n");

    let mut ed = typed("A.b\n");
    assert!(ed.execute("%s/a.B/甲/fi").is_ok(), "{}", ed.status());
    assert_eq!(ed.current_buffer().text(), "甲\n");
}

#[test]
fn a_substitution_reads_a_dash_as_a_span_and_a_comma_as_a_list() {
    let five = || typed("a\na\na\na\na\n");

    let mut ed = five();
    assert!(ed.execute("1-3s/a/b/").is_ok(), "{}", ed.status());
    assert_eq!(ed.current_buffer().text(), "b\nb\nb\na\na\n");

    let mut ed = five();
    assert!(ed.execute("1,3s/a/b/").is_ok(), "{}", ed.status());
    assert_eq!(ed.current_buffer().text(), "b\na\nb\na\na\n");

    let mut ed = five();
    assert!(ed.execute("5,1,4s/a/b/").is_ok(), "{}", ed.status());
    assert_eq!(ed.current_buffer().text(), "b\na\na\nb\nb\n");

    let mut ed = five();
    ed.goto_line(2);
    assert!(ed.execute(".-$s/a/b/").is_ok(), "{}", ed.status());
    assert_eq!(ed.current_buffer().text(), "a\nb\nb\nb\nb\n");
    let mut ed = five();
    ed.goto_line(2);
    assert!(ed.execute(".,$s/a/b/").is_ok(), "{}", ed.status());
    assert_eq!(ed.current_buffer().text(), "a\nb\na\na\nb\n");

    let mut ed = five();
    assert!(ed.execute("1-3,5s/a/b/").is_err());
    assert_eq!(ed.current_buffer().text(), "a\na\na\na\na\n");
}
