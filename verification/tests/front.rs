//! What the front end asks and tells.

use yumete_core::buffer::Syntax;
use yumete_core::editor::Editor;
use yumete_core::editor::Key;
use yumete_core::editor::Mode;

/// `text` typed into a fresh editor, with the cursor at the top.
fn typed(text: &str) -> Editor {
    let mut ed = Editor::new();
    ed.current_buffer_mut().set_syntax(Syntax::Text);
    ed.on_key(Key::Char('i'));
    for c in text.chars() {
        ed.on_key(if c == '\n' { Key::Enter } else { Key::Char(c) });
    }
    ed.on_key(Key::Esc);
    ed.on_key(Key::Char('g'));
    ed.on_key(Key::Char('g'));
    ed.current_buffer_mut().set_syntax(Syntax::Markdown);
    ed
}

/// Presses the keys of `keys`, one by one.
fn press(ed: &mut Editor, keys: &str) {
    for c in keys.chars() {
        ed.on_key(Key::Char(c));
    }
}

/// Presses the keys of `s`, with a line break for the enter key.
fn type_keys(ed: &mut Editor, s: &str) {
    for c in s.chars() {
        ed.on_key(if c == '\n' { Key::Enter } else { Key::Char(c) });
    }
}

/// What stands on the line at the foot of the page.
fn line_of(mark: &str, line: &str) -> Option<(String, String)> {
    Some((mark.to_string(), line.to_string()))
}

#[test]
fn the_prompt_can_be_edited_in_the_middle() {
    let mut ed = typed("一二三\n");
    ed.on_key(Key::Char(':'));
    for c in "s/x/y/".chars() {
        ed.on_key(Key::Char(c));
    }
    assert_eq!(ed.prompt(), line_of(":", "s/x/y/"));
    ed.on_key(Key::Left);
    ed.on_key(Key::Backspace);
    ed.on_key(Key::Char('z'));
    assert_eq!(ed.prompt(), line_of(":", "s/x/z/"));
    assert_eq!(ed.prompt_caret(), 5, "the caret stayed where the edit was");
    ed.on_key(Key::Home);
    assert_eq!(ed.prompt_caret(), 0);
    ed.on_key(Key::End);
    assert_eq!(ed.prompt_caret(), 6);
    ed.on_key(Key::Esc);
    ed.on_key(Key::Char(':'));
    for c in "sh wc -w".chars() {
        ed.on_key(Key::Char(c));
    }
    ed.on_key(Key::Ctrl('w'));
    assert_eq!(ed.prompt(), line_of(":", "sh wc "));
    ed.on_key(Key::Ctrl('u'));
    assert_eq!(ed.prompt(), line_of(":", ""));

    ed.on_key(Key::Esc);
    ed.on_key(Key::Char(':'));
    for c in "grep 甲　乙".chars() {
        ed.on_key(Key::Char(c));
    }
    ed.on_key(Key::Ctrl('w'));
    assert_eq!(ed.prompt(), line_of(":", "grep 甲　"));
}

#[test]
fn the_prompt_remembers_what_was_typed_at_it() {
    let mut ed = typed("一二三\n");
    for line in ["toc", "w"] {
        ed.on_key(Key::Char(':'));
        for c in line.chars() {
            ed.on_key(Key::Char(c));
        }
        ed.on_key(Key::Enter);
    }
    ed.on_key(Key::Char(':'));
    ed.on_key(Key::Up);
    assert_eq!(ed.prompt(), line_of(":", "w"), "the newest first");
    ed.on_key(Key::Up);
    assert_eq!(ed.prompt(), line_of(":", "toc"));
    ed.on_key(Key::Up);
    assert_eq!(ed.prompt(), line_of(":", "toc"), "and it stops at the oldest");
    ed.on_key(Key::Down);
    assert_eq!(ed.prompt(), line_of(":", "w"));
    ed.on_key(Key::Down);
    assert_eq!(ed.prompt(), line_of(":", ""), "back to the empty line");
    ed.on_key(Key::Esc);

    press(&mut ed, "/二");
    ed.on_key(Key::Enter);
    ed.on_key(Key::Char('/'));
    ed.on_key(Key::Up);
    assert_eq!(ed.prompt(), line_of("/", "二"));
}

#[test]
fn delete_takes_the_character_the_cursor_is_in_front_of() {
    let mut ed = Editor::new();
    ed.current_buffer_mut().insert(0, "那年冬天\n下雪").expect("the buffer is not locked");
    ed.on_key(Key::Char('i'));
    ed.on_key(Key::Delete);
    assert_eq!(ed.current_buffer().text(), "年冬天\n下雪");
    assert_eq!(ed.cursor(), 0, "the cursor stays where it is");
    ed.on_key(Key::Char('l'));
    for _ in 0..3 {
        ed.on_key(Key::Delete);
    }
    assert_eq!(ed.current_buffer().text(), "l\n下雪");
    ed.on_key(Key::Delete);
    assert_eq!(ed.current_buffer().text(), "l下雪");
    ed.on_key(Key::Esc);
    ed.on_key(Key::Char('G'));
    ed.on_key(Key::Char('i'));
    let before = ed.current_buffer().text();
    for _ in 0..5 {
        ed.on_key(Key::Delete);
    }
    assert!(ed.current_buffer().text().len() <= before.len());

    ed.on_key(Key::Esc);
    ed.on_key(Key::Char(':'));
    type_keys(&mut ed, "wq");
    ed.on_key(Key::Left);
    ed.on_key(Key::Delete);
    assert_eq!(ed.prompt().map(|(_, line)| line.to_string()), Some("w".into()));
}

#[test]
fn a_paste_from_outside_is_writing_not_keystrokes() {
    let mut ed = typed("甲乙丙");
    press(&mut ed, "gg");
    ed.paste_text("那年冬天");
    assert_eq!(ed.current_buffer().text(), "那年冬天乙丙");
    ed.on_key(Key::Char('u'));
    assert_eq!(ed.current_buffer().text(), "甲乙丙");

    let mut ed = typed("甲乙丙");
    press(&mut ed, "gg");
    ed.on_key(Key::Char('i'));
    ed.paste_text("那年");
    assert_eq!(ed.current_buffer().text(), "那年甲乙丙");

    let mut ed = typed("甲乙丙");
    ed.on_key(Key::Char('/'));
    ed.paste_text("那年\n冬天");
    assert_eq!(ed.prompt(), line_of("/", "那年冬天"));
}

#[test]
fn the_system_clipboard_goes_both_ways() {
    let mut ed = typed("那年冬天");
    press(&mut ed, "ggvl");
    type_keys(&mut ed, " y");
    assert_eq!(ed.take_clipboard_request().as_deref(), Some("那年"));
    ed.execute(":clipboard-yank").unwrap();
    assert_eq!(ed.take_clipboard_request().as_deref(), Some("那年"));

    type_keys(&mut ed, " p");
    assert_eq!(ed.take_clipboard_read(), Some(true));
    assert_eq!(ed.take_clipboard_read(), None, "asked once");
    press(&mut ed, "gg");
    ed.provide_clipboard("外面的字", true);
    assert!(ed.current_buffer().text().contains("外面的字"));
}

#[test]
fn the_mouse_points_at_a_character_and_drags_a_selection() {
    let mut ed = typed("那年冬天");
    ed.point_at(1);
    assert_eq!(ed.selection(), (1, 2), "one 字, the one pointed at");
    ed.drag_to(3);
    assert_eq!(ed.selection(), (1, 4), "年冬天");
    type_keys(&mut ed, " y");
    assert_eq!(ed.take_clipboard_request().as_deref(), Some("年冬天"));
    press(&mut ed, "gg");
    ed.on_key(Key::Char('p'));
    assert_eq!(ed.current_buffer().text(), "那年冬天年冬天");
}

#[test]
fn space_y_hands_the_selection_to_the_front_end() {
    let mut ed = typed("春江潮水");
    press(&mut ed, "ggvl");
    type_keys(&mut ed, " y");
    assert_eq!(ed.take_clipboard_request().as_deref(), Some("春江"));
    assert_eq!(ed.take_clipboard_request(), None, "taken once only");
}

#[test]
fn key_aliases_remap_normal_mode_keys() {
    let mut ed = Editor::new();
    ed.on_key(Key::Char('i'));
    type_keys(&mut ed, "abc");
    ed.on_key(Key::Esc);

    let mut aliases = Vec::new();
    aliases.push(('q', "d".to_string()));
    ed.set_key_aliases(aliases);

    ed.on_key(Key::Char('g'));
    ed.on_key(Key::Char('g'));
    ed.on_key(Key::Char('q'));
    assert_eq!(ed.current_buffer().text(), "bc");
}

#[test]
fn a_key_alias_may_name_a_sequence() {
    let mut ed = typed("上一句\n下一句\n");
    ed.goto_line(1);
    let mut aliases = Vec::new();
    aliases.push(('J', "gJ".to_string()));
    ed.set_key_aliases(aliases);
    ed.on_key(Key::Char('J'));
    assert_eq!(ed.current_buffer().text(), "上一句下一句\n");
}

#[test]
fn an_alias_that_names_itself_does_not_spin() {
    let mut ed = typed("abc\n");
    ed.goto_line(1);
    let mut aliases = Vec::new();
    aliases.push(('x', "xx".to_string()));
    ed.set_key_aliases(aliases);
    ed.on_key(Key::Char('x'));
    assert!(!ed.current_buffer().text().is_empty());
}

#[test]
fn committed_text_goes_to_the_prompt_while_searching() {
    let mut ed = typed("春江潮水連海平");
    ed.on_key(Key::Char('/'));
    ed.insert_committed("潮水");
    assert_eq!(ed.prompt(), line_of("/", "潮水"));
    assert_eq!(ed.current_buffer().text(), "春江潮水連海平");
    ed.on_key(Key::Enter);
    assert_eq!(ed.selection(), (2, 4), "search selected 潮水");
}

#[test]
fn a_colon_further_along_the_line_is_only_a_colon() {
    let mut ed = Editor::new();
    for c in ":s/".chars() {
        ed.on_key(Key::Char(c));
    }
    ed.on_key(Key::Char(':'));
    assert_eq!(ed.mode(), Mode::Command);
    assert_eq!(ed.prompt(), line_of(":", "s/:"));
}

#[test]
fn committed_text_lands_at_the_prompt_caret() {
    let mut ed = typed("春江潮水連海平");
    ed.on_key(Key::Char('/'));
    ed.insert_committed("海平");
    ed.on_key(Key::Home);
    ed.insert_committed("潮水");
    assert_eq!(ed.prompt(), line_of("/", "潮水海平"));
    ed.insert_committed("連");
    assert_eq!(ed.prompt(), line_of("/", "潮水連海平"));
}

#[test]
fn an_empty_command_line_guesses_nothing() {
    let mut ed = Editor::new();
    ed.on_key(Key::Char(':'));
    assert_eq!(ed.prompt_ghost(), "");
}

#[test]
fn tab_leaves_arguments_alone() {
    let mut ed = Editor::new();
    ed.on_key(Key::Char(':'));
    for c in "w draft".chars() {
        ed.on_key(Key::Char(c));
    }
    ed.on_key(Key::Tab);
    assert_eq!(
        ed.prompt(),
        line_of(":", "w draft"),
        "a file name is not a command name"
    );
}

#[test]
fn the_commit_method_rides_the_same_channel_as_the_scheme() {
    let mut ed = Editor::new();
    ed.set_ime_available(true);
    ed.execute(":yume-commit").unwrap();
    assert_eq!(ed.take_scheme_request().as_deref(), Some("commit:"));
    ed.execute(":yume-commit auto").unwrap();
    assert_eq!(ed.take_scheme_request().as_deref(), Some("commit:unique"));
    assert_eq!(ed.take_scheme_request(), None, "taken once only");
    let mut cold = Editor::new();
    cold.execute(":yume-commit fluency").unwrap();
    assert_eq!(cold.take_scheme_request(), None, "{}", cold.status());
    assert!(cold.status().contains("碼表"), "{}", cold.status());
}

#[test]
fn chaifen_command_leaves_a_request_for_the_ime() {
    let mut ed = Editor::new();
    assert_eq!(ed.take_chaifen_request(), None);
    ed.execute(":yume-chaifen").unwrap();
    assert_eq!(ed.take_chaifen_request(), None, "{}", ed.status());
    assert!(ed.status().contains("碼表"), "{}", ed.status());
    ed.set_ime_available(true);
    ed.execute(":yume-chaifen").unwrap();
    assert_eq!(ed.take_chaifen_request(), Some(true));
    assert_eq!(ed.take_chaifen_request(), None, "taken once only");
    ed.set_chaifen(false);
    ed.execute(":yume-chaifen").unwrap();
    assert_eq!(ed.take_chaifen_request(), Some(true));
}
