//! Buffers, leaving, and locks.

use yumete_core::buffer::Buffer;
use yumete_core::buffer::Syntax;
use yumete_core::editor::Editor;
use yumete_core::editor::Key;
use yumete_core::editor::Mode;
use yumete_core::keys::KeyOutcome;
use yumete_core::outcome::CommandError;
use yumete_core::outcome::CommandOutcome;
use yumete_core::outcome::EditorError;

/// `text` typed into a fresh editor, with the cursor at the top.
fn typed(text: &str) -> Editor {
    let mut ed = Editor::new();
    ed.current_buffer_mut().set_syntax(Syntax::Text);
    ed.on_key(Key::Char('i'));
    for c in text.chars() {
        ed.on_key(if c == '\n' { Key::Enter } else { Key::Char(c) });
    }
    ed.on_key(Key::Esc);
    ed.on_key(Key::Char('g'));
    ed.on_key(Key::Char('g'));
    ed.current_buffer_mut().set_syntax(Syntax::Markdown);
    ed
}

/// Presses the keys of `keys`, one by one.
fn press(ed: &mut Editor, keys: &str) {
    for c in keys.chars() {
        ed.on_key(Key::Char(c));
    }
}

/// Presses the keys of `s`, with a line break for the enter key.
fn type_keys(ed: &mut Editor, s: &str) {
    for c in s.chars() {
        ed.on_key(if c == '\n' { Key::Enter } else { Key::Char(c) });
    }
}

#[test]
fn buffers_can_be_switched_and_keep_their_place() {
    let mut ed = Editor::new();
    ed.execute(":new").unwrap();
    ed.on_key(Key::Char('i'));
    for c in "第一篇的內容".chars() {
        ed.on_key(Key::Char(c));
    }
    ed.on_key(Key::Esc);
    let left_at = ed.cursor();
    ed.execute(":new").unwrap();
    ed.on_key(Key::Char('i'));
    for c in "第二篇".chars() {
        ed.on_key(Key::Char(c));
    }
    ed.on_key(Key::Esc);
    assert_eq!(ed.buffer_count(), 2);
    assert_eq!(ed.buffer_position(), (2, 2));

    press(&mut ed, "gg");
    ed.execute(":buffer-previous").unwrap();
    assert_eq!(ed.buffer_position(), (1, 2));
    assert_eq!(ed.current_buffer().text(), "第一篇的內容");
    assert_eq!(ed.cursor(), left_at, "back where it was left");

    ed.execute(":buffer-next").unwrap();
    assert_eq!(ed.current_buffer().text(), "第二篇");
    assert_eq!(ed.cursor(), 0, "gg had moved it to the top");
}

#[test]
fn gn_and_gp_switch_buffers_too() {
    let mut ed = typed("甲");
    ed.execute(":new").unwrap();
    press(&mut ed, "i");
    ed.on_key(Key::Char('乙'));
    ed.on_key(Key::Esc);
    ed.execute(":new").unwrap();
    press(&mut ed, "i");
    ed.on_key(Key::Char('丙'));
    ed.on_key(Key::Esc);
    assert_eq!(ed.buffer_count(), 3);
    press(&mut ed, "gn");
    assert_eq!(ed.buffer_position(), (1, 3), "wraps past the end");
    press(&mut ed, "gp");
    assert_eq!(ed.buffer_position(), (3, 3), "and back the other way");
}

#[test]
fn switching_clamps_a_cursor_past_the_end() {
    let mut ed = typed("一二三四五六七八九十");
    press(&mut ed, "gl");
    let far = ed.cursor();
    ed.execute(":new").unwrap();
    ed.on_key(Key::Char('i'));
    ed.on_key(Key::Char('短'));
    ed.on_key(Key::Esc);
    ed.execute(":buffer-previous").unwrap();
    ed.execute(":buffer-next").unwrap();
    assert!(
        ed.cursor() <= ed.current_buffer().char_count(),
        "a cursor from a longer buffer must not point past this one"
    );
    assert!(
        far > ed.current_buffer().char_count(),
        "the test is meaningful"
    );
}

#[test]
fn starts_with_one_scratch_buffer() {
    let ed = Editor::new();
    assert_eq!(ed.buffer_count(), 1);
    assert_eq!(ed.current_buffer().display_name(), "[scratch]");
}

#[test]
fn new_buffer_command_adds_a_buffer() {
    let mut ed = Editor::new();
    ed.execute(":new").unwrap();
    assert_eq!(ed.buffer_count(), 1);
}

#[test]
fn unknown_command_is_reported() {
    let mut ed = Editor::new();
    assert!(matches!(
        ed.execute(":frobnicate"),
        Err(EditorError::Command(CommandError::Unknown(_)))
    ));
}

#[test]
fn write_without_a_name_reports_no_file_name() {
    let mut ed = Editor::new();
    ed.current_buffer_mut().insert(0, "x").expect("the buffer is not locked");
    assert!(matches!(ed.execute(":w"), Err(EditorError::NoFileName)));
}

#[test]
fn quit_is_blocked_by_unsaved_changes_but_force_quit_overrides() {
    let mut ed = Editor::new();
    ed.current_buffer_mut().insert(0, "未存").expect("the buffer is not locked");

    assert!(matches!(ed.execute(":q"), Err(EditorError::UnsavedChanges)));
    assert_eq!(ed.execute(":q!").unwrap(), CommandOutcome::Quit);
}

#[test]
fn quit_on_a_clean_buffer_proceeds() {
    let mut ed = Editor::new();
    assert_eq!(ed.execute(":q").unwrap(), CommandOutcome::Quit);
}

#[test]
fn command_mode_runs_the_colon_line_and_quit_signals() {
    let mut ed = Editor::new();
    ed.on_key(Key::Char('i'));
    type_keys(&mut ed, "hi");
    ed.on_key(Key::Esc);

    ed.on_key(Key::Char(':'));
    assert_eq!(ed.mode(), Mode::Command);
    type_keys(&mut ed, "q");
    assert_eq!(ed.on_key(Key::Enter), KeyOutcome::Continue);
    assert!(!ed.status().is_empty());

    ed.on_key(Key::Char(':'));
    type_keys(&mut ed, "q!");
    assert_eq!(ed.on_key(Key::Enter), KeyOutcome::Quit);
}

#[test]
fn undo_belongs_to_the_buffer_it_was_taken_in() {
    let mut ed = Editor::new();
    ed.current_buffer_mut().insert(0, "甲").expect("the buffer is not locked");
    ed.execute(":new").unwrap();
    ed.on_key(Key::Char('i'));
    type_keys(&mut ed, "乙");
    ed.on_key(Key::Esc);
    assert_eq!(ed.current_buffer().text(), "乙");

    ed.prev_buffer();
    assert_eq!(ed.current_buffer().text(), "甲");
    ed.on_key(Key::Char('u'));
    assert_eq!(ed.current_buffer().text(), "甲");

    ed.next_buffer();
    ed.on_key(Key::Char('u'));
    assert_eq!(ed.current_buffer().text(), "");
}

#[test]
fn leaving_checks_every_open_file_not_just_this_one() {
    let mut ed = Editor::new();
    ed.on_key(Key::Char('i'));
    type_keys(&mut ed, "unsaved");
    ed.on_key(Key::Esc);
    ed.execute(":new").unwrap();
    assert!(matches!(ed.execute(":qa"), Err(EditorError::UnsavedChanges)));
    assert_eq!(ed.current_buffer().text(), "unsaved");
    assert_eq!(ed.execute(":qa!").unwrap(), CommandOutcome::Quit);
}

#[test]
fn quit_closes_this_file_and_only_leaves_on_the_last_one() {
    let mut ed = Editor::new();
    ed.on_key(Key::Char('i'));
    type_keys(&mut ed, "甲");
    ed.on_key(Key::Esc);
    ed.execute(":new").unwrap();
    assert_eq!(ed.execute(":q").unwrap(), CommandOutcome::Continue);
    assert_eq!(ed.current_buffer().text(), "甲");
    assert!(matches!(ed.execute(":q"), Err(EditorError::UnsavedChanges)));
    assert_eq!(ed.execute(":q!").unwrap(), CommandOutcome::Quit);
}

#[test]
fn a_locked_buffer_refuses_every_way_in() {
    const TEXT: &str = "一二三 1\n四五六\n";
    let mut ed = Editor::new();
    ed.add_buffer(Buffer::from_text(TEXT));
    ed.current_buffer_mut().set_readonly(true);
    let before = ed.current_buffer().text();
    assert!(!ed.current_buffer().is_modified(), "clean to begin with");

    press(&mut ed, "i");
    assert_eq!(ed.mode(), Mode::Normal, "Insert mode is not even entered");
    assert!(ed.status().contains("只讀"), "{}", ed.status());
    ed.on_key(Key::Char('甲'));
    assert_eq!(
        ed.current_buffer().text(),
        before,
        "{}",
        ed.current_buffer().text()
    );

    let ways: [(&str, &[Key]); 11] = [
        ("d", &[Key::Char('d')]),
        ("yp", &[Key::Char('y'), Key::Char('p')]),
        ("o", &[Key::Char('o')]),
        ("O", &[Key::Char('O')]),
        ("a甲", &[Key::Char('a'), Key::Char('甲')]),
        ("c甲", &[Key::Char('c'), Key::Char('甲')]),
        ("i甲", &[Key::Char('i'), Key::Char('甲')]),
        ("gJ", &[Key::Char('g'), Key::Char('J')]),
        ("ms(", &[Key::Char('m'), Key::Char('s'), Key::Char('(')]),
        ("Ctrl-A", &[Key::Ctrl('a')]),
        ("Ctrl-X", &[Key::Ctrl('x')]),
    ];
    for (name, keys) in ways {
        let mut open = Editor::new();
        open.add_buffer(Buffer::from_text(TEXT));
        press(&mut open, "gg");
        for key in keys {
            open.on_key(*key);
        }
        open.on_key(Key::Esc);
        assert_ne!(
            open.current_buffer().text(),
            before,
            "`{name}` does not edit even an unlocked buffer — bad test"
        );

        ed.set_status(String::new());
        press(&mut ed, "gg");
        for key in keys {
            ed.on_key(*key);
        }
        ed.on_key(Key::Esc);
        assert_eq!(
            ed.current_buffer().text(),
            before,
            "`{name}` moved a locked buffer"
        );
    }

    let mut open = Editor::new();
    open.add_buffer(Buffer::from_text(TEXT));
    assert!(open.execute("s/一/壹/g").is_ok());
    assert_ne!(
        open.current_buffer().text(),
        before,
        "`:s` does not edit even an unlocked buffer — bad test"
    );
    assert!(ed.execute("s/一/壹/g").is_ok());
    assert_eq!(ed.current_buffer().text(), before, "`:s` moved a locked one");
    assert!(ed.status().contains("只讀"), "{}", ed.status());

    press(&mut ed, "u");
    assert_eq!(ed.current_buffer().text(), before);
    assert!(ed.status().contains("只讀"), "{}", ed.status());
    assert!(
        !ed.current_buffer().is_modified(),
        "and nothing marked it changed"
    );

    assert!(ed.execute("readonly off").is_ok());
    press(&mut ed, "ggi");
    assert_eq!(ed.mode(), Mode::Insert, "unlocked, the door opens again");
    ed.on_key(Key::Char('甲'));
    assert!(
        ed.current_buffer().text().starts_with('甲'),
        "{}",
        ed.current_buffer().text()
    );
}

#[test]
fn readonly_says_which_way_it_is() {
    let mut ed = Editor::new();
    assert!(ed.execute("readonly").is_ok());
    assert!(ed.status().contains("off"), "{}", ed.status());
    assert!(ed.execute("ro on").is_ok());
    assert!(ed.is_readonly());
    assert!(ed.execute("readonly").is_ok());
    assert!(ed.status().contains("on"), "{}", ed.status());
    assert!(ed.execute("readonly 也許").is_err());
}

#[test]
fn a_refused_delete_leaves_the_selection_where_it_was() {
    let mut ed = Editor::new();
    ed.add_buffer(Buffer::from_text("一二三四五"));
    ed.anchor = 1;
    ed.cursor = 3;
    ed.current_buffer_mut().set_readonly(true);
    press(&mut ed, "d");
    assert_eq!(ed.current_buffer().text(), "一二三四五", "the text stayed");
    assert_eq!((ed.anchor, ed.cursor), (1, 3), "so did the selection");
    assert!(ed.status().contains("只讀"), "and it said so: {}", ed.status());
}

#[test]
fn space_b_picks_a_buffer_by_name() {
    let mut ed = Editor::new();
    ed.current_buffer_mut().insert(0, "第一篇").expect("the buffer is not locked");
    ed.execute(":new").unwrap();
    ed.current_buffer_mut().insert(0, "第二篇").expect("the buffer is not locked");
    ed.execute(":new").unwrap();
    ed.current_buffer_mut().insert(0, "第三篇").expect("the buffer is not locked");

    type_keys(&mut ed, " b");
    assert_eq!(ed.mode(), Mode::Picker);
    assert_eq!(ed.picker().map(|p| p.total()), Some(3));

    ed.on_key(Key::Down);
    ed.on_key(Key::Enter);
    assert_eq!(ed.mode(), Mode::Normal);
    assert_eq!(ed.current_buffer().text(), "第二篇");
}

#[test]
fn a_picker_closes_on_esc_and_on_backspacing_past_the_start() {
    let mut ed = Editor::new();
    type_keys(&mut ed, " b");
    ed.on_key(Key::Esc);
    assert_eq!(ed.mode(), Mode::Normal);
    assert!(ed.picker().is_none());

    type_keys(&mut ed, " b");
    ed.on_key(Key::Char('x'));
    ed.on_key(Key::Backspace);
    assert_eq!(ed.mode(), Mode::Picker);
    ed.on_key(Key::Backspace);
    assert_eq!(ed.mode(), Mode::Normal);
}

#[test]
fn a_buffer_can_be_closed_and_the_last_one_is_emptied() {
    let mut ed = Editor::new();
    ed.current_buffer_mut().insert(0, "甲").expect("the buffer is not locked");
    ed.execute(":new").unwrap();
    ed.current_buffer_mut().insert(0, "乙").expect("the buffer is not locked");
    assert_eq!(ed.buffer_count(), 2);

    assert!(matches!(
        ed.execute(":buffer-close"),
        Err(EditorError::UnsavedChanges)
    ));
    ed.execute(":buffer-close!").unwrap();
    assert_eq!(ed.buffer_count(), 1);
    assert_eq!(ed.current_buffer().text(), "甲");

    ed.execute(":buffer-close!").unwrap();
    assert_eq!(ed.buffer_count(), 1);
    assert_eq!(ed.current_buffer().text(), "");

    ed.execute(":buffer").unwrap();
    assert_eq!(ed.mode(), Mode::Picker);
}

#[test]
fn every_prompt_has_a_caret() {
    let mut ed = typed("那年冬天。\n");
    press(&mut ed, "gg");
    ed.on_key(Key::Char('v'));
    ed.execute(":ruby").unwrap();
    assert_eq!(ed.mode(), Mode::Ruby, "{}", ed.status());
    for c in "hàn".chars() {
        ed.on_key(Key::Char(c));
    }
    ed.on_key(Key::Left);
    ed.on_key(Key::Left);
    ed.on_key(Key::Char('X'));
    assert_eq!(ed.prompt().map(|(_, line)| line).as_deref(), Some("hXàn"));
    ed.on_key(Key::Home);
    ed.on_key(Key::Char('Z'));
    assert_eq!(ed.prompt().map(|(_, line)| line).as_deref(), Some("ZhXàn"));
    assert_eq!(ed.prompt_before_caret(), "Z");
    ed.on_key(Key::Esc);

    let mut ed = typed("那年冬天。\n");
    ed.open_buffer_picker();
    for c in "abc".chars() {
        ed.on_key(Key::Char(c));
    }
    ed.on_key(Key::Left);
    ed.on_key(Key::Backspace);
    assert_eq!(ed.picker().map(|p| p.query).as_deref(), Some("ac"));
    ed.on_key(Key::Home);
    ed.on_key(Key::Delete);
    assert_eq!(ed.picker().map(|p| p.query).as_deref(), Some("c"));
    assert_eq!(ed.picker().map(|p| p.caret()), Some(0));
}

#[test]
fn a_locked_buffer_refuses_the_line_that_would_have_been_added() {
    for text in ["一二三", "一二三\n"] {
        let mut ed = Editor::new();
        ed.add_buffer(Buffer::from_text(text));
        ed.current_buffer_mut().set_readonly(true);
        for keys in ["Go", "ggO"] {
            press(&mut ed, keys);
            ed.on_key(Key::Esc);
            assert_eq!(ed.current_buffer().text(), text, "{keys} on {text:?}");
            assert!(
                ed.cursor() <= ed.current_buffer().char_count(),
                "{keys} on {text:?}: cursor {} past the end {}",
                ed.cursor(),
                ed.current_buffer().char_count()
            );
        }
    }
}
