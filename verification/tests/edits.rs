//! Changing the text.

use yumete_core::buffer::Syntax;
use yumete_core::editor::Editor;
use yumete_core::editor::Key;
use yumete_core::editor::Mode;
use yumete_core::verbs::WRITING_MAX;

/// `text` typed into a fresh editor, with the cursor at the top.
fn typed(text: &str) -> Editor {
    let mut ed = Editor::new();
    ed.current_buffer_mut().set_syntax(Syntax::Text);
    ed.on_key(Key::Char('i'));
    for c in text.chars() {
        ed.on_key(if c == '\n' { Key::Enter } else { Key::Char(c) });
    }
    ed.on_key(Key::Esc);
    ed.on_key(Key::Char('g'));
    ed.on_key(Key::Char('g'));
    ed.current_buffer_mut().set_syntax(Syntax::Markdown);
    ed
}

/// Presses the keys of `keys`, one by one.
fn press(ed: &mut Editor, keys: &str) {
    for c in keys.chars() {
        ed.on_key(Key::Char(c));
    }
}

/// Presses the keys of `s`, with a line break for the enter key.
fn type_keys(ed: &mut Editor, s: &str) {
    for c in s.chars() {
        ed.on_key(if c == '\n' { Key::Enter } else { Key::Char(c) });
    }
}

#[test]
fn the_case_keys_moved_under_one_prefix() {
    let lower = |keys: &str| {
        let mut ed = typed("Hello World\n");
        press(&mut ed, keys);
        ed.current_buffer().text()
    };
    assert_eq!(lower("x`l"), "hello world\n");
    assert_eq!(lower("x`u"), "HELLO WORLD\n");
    assert_eq!(lower("x``"), "hELLO wORLD\n");
    let mut ed = typed("Hello World\n");
    press(&mut ed, "x~");
    assert_eq!(ed.current_buffer().text(), "hELLO wORLD\n");
    let mut ed = typed("Hello World\n");
    ed.on_key(Key::Alt('`'));
    assert!(ed.status().contains("`l"), "{}", ed.status());
}

#[test]
fn r_replaces_with_what_the_ime_committed() {
    let mut ed = typed("錢塘江上\n");
    ed.on_key(Key::Char('r'));
    assert!(ed.takes_a_character(), "the front end must know to run the IME");
    ed.insert_committed("銀");
    assert_eq!(ed.current_buffer().text(), "銀塘江上\n");
    assert!(!ed.takes_a_character(), "and the pending state is spent");

    let mut ed = typed("錢塘江上\n");
    press(&mut ed, "x");
    ed.on_key(Key::Char('r'));
    ed.insert_committed("■");
    assert_eq!(
        ed.current_buffer().text(),
        "■■■■\n",
        "one 字 writes over every character, and not over the line ending"
    );

    let mut ed = typed("錢塘江上\n");
    press(&mut ed, "x");
    ed.on_key(Key::Char('r'));
    ed.insert_committed("春天");
    assert_eq!(ed.current_buffer().text(), "春天\n");
}

#[test]
fn insert_takes_back_a_word_and_a_line() {
    let mut ed = typed("春天到了很好\n");
    ed.goto_line(1);
    ed.on_key(Key::Char('A'));
    ed.on_key(Key::Ctrl('w'));
    let after = ed.current_buffer().text();
    assert!(
        after.starts_with("春天到了") && after.trim_end() != "春天到了很好",
        "one word, not the whole paragraph: {after:?}"
    );
    ed.on_key(Key::Ctrl('u'));
    assert_eq!(ed.current_buffer().text(), "\n", "and C-u takes the line");
    ed.on_key(Key::Esc);
    press(&mut ed, "u");
    assert_eq!(ed.current_buffer().text(), after);
}

#[test]
fn r_writes_one_character_over_the_whole_selection() {
    let mut ed = typed("甲乙丙");
    press(&mut ed, "%");
    press(&mut ed, "r");
    ed.on_key(Key::Char('〇'));
    assert_eq!(
        ed.current_buffer().text(),
        "〇〇〇",
        "one for one, not one character replacing the lot"
    );

    let mut ed = typed("甲乙丙");
    press(&mut ed, "gglr");
    ed.on_key(Key::Char('〇'));
    assert_eq!(ed.current_buffer().text(), "甲〇丙");
}

#[test]
fn named_registers_keep_more_than_one_thing() {
    let mut ed = typed("甲乙丙");
    press(&mut ed, "gg");
    press(&mut ed, "\"a"); // into register a…
    press(&mut ed, "vy");
    press(&mut ed, "gg2l");
    press(&mut ed, "vy");
    press(&mut ed, "%");
    press(&mut ed, "\"aR"); // put register a over the lot
    assert_eq!(ed.current_buffer().text(), "甲");
}

#[test]
fn deleting_yanks_so_text_can_be_moved() {
    let mut ed = typed("甲乙丙");
    press(&mut ed, "ggvd");
    assert_eq!(ed.current_buffer().text(), "乙丙");
    press(&mut ed, "glp");
    assert_eq!(ed.current_buffer().text(), "乙丙甲");
}

#[test]
fn the_alt_pair_takes_text_out_without_spending_the_register() {
    let mut ed = typed("甲乙丙");
    press(&mut ed, "ggy");
    press(&mut ed, "l");
    ed.on_key(Key::Alt('d'));
    assert_eq!(ed.current_buffer().text(), "甲丙");
    press(&mut ed, "glp");
    assert_eq!(ed.current_buffer().text(), "甲丙甲");

    let mut ed = typed("甲乙丙");
    press(&mut ed, "ggy");
    press(&mut ed, "l");
    ed.on_key(Key::Alt('c'));
    assert_eq!(ed.mode(), Mode::Insert, "{}", ed.status());
    ed.on_key(Key::Char('丁'));
    ed.on_key(Key::Esc);
    press(&mut ed, "glp");
    assert_eq!(ed.current_buffer().text(), "甲丁丙甲");

    let mut ed = typed("甲乙丙丁");
    press(&mut ed, "gg2");
    ed.on_key(Key::Alt('d'));
    assert_eq!(ed.current_buffer().text(), "丙丁");
}

#[test]
fn percent_selects_the_whole_buffer() {
    let mut ed = typed("上\n中\n下");
    press(&mut ed, "%");
    assert_eq!(ed.selection(), (0, ed.current_buffer().char_count()));
}

#[test]
fn join_omits_the_space_between_two_wide_characters() {
    let mut ed = typed("上山\n下海");
    press(&mut ed, "gJ");
    assert_eq!(ed.current_buffer().text(), "上山下海");
    let mut ed = typed("up hill\ndown dale");
    press(&mut ed, "gJ");
    assert_eq!(ed.current_buffer().text(), "up hill down dale");
    let mut ed = typed("one\n    two");
    press(&mut ed, "gJ");
    assert_eq!(ed.current_buffer().text(), "one two");
}

#[test]
fn the_case_group_leaves_han_alone() {
    let mut ed = typed("aB漢c");
    press(&mut ed, "%``");
    assert_eq!(ed.current_buffer().text(), "Ab漢C");
    press(&mut ed, "%`l");
    assert_eq!(ed.current_buffer().text(), "ab漢c");
    press(&mut ed, "%`u");
    assert_eq!(ed.current_buffer().text(), "AB漢C");
}

#[test]
fn replace_swaps_the_selection_for_the_register() {
    let mut ed = typed("甲乙丙");
    press(&mut ed, "v");
    press(&mut ed, "y");
    press(&mut ed, "%R");
    assert_eq!(ed.current_buffer().text(), "甲");
}

#[test]
fn indent_adds_and_removes_a_level() {
    let mut ed = typed("一\n二");
    ed.set_indent_width(2);
    press(&mut ed, "%>");
    assert_eq!(ed.current_buffer().text(), "  一\n  二");
    press(&mut ed, "%<");
    assert_eq!(ed.current_buffer().text(), "一\n二");
}

#[test]
fn control_a_and_x_step_the_number_under_the_cursor() {
    let mut ed = typed("第 9 章");
    ed.on_key(Key::Ctrl('a'));
    assert_eq!(ed.current_buffer().text(), "第 10 章");
    ed.on_key(Key::Ctrl('x'));
    assert_eq!(ed.current_buffer().text(), "第 9 章");
    let mut ed = typed("v007");
    ed.on_key(Key::Ctrl('a'));
    assert_eq!(ed.current_buffer().text(), "v008");
}

#[test]
fn surround_adds_deletes_and_replaces() {
    let mut ed = typed("你好");
    press(&mut ed, "%ms「");
    assert_eq!(ed.current_buffer().text(), "「你好」");
    press(&mut ed, "gg2l");
    press(&mut ed, "mr「《");
    assert_eq!(ed.current_buffer().text(), "《你好》");
    press(&mut ed, "md");
    assert_eq!(ed.current_buffer().text(), "你好");
}

#[test]
fn insert_mode_types_text_and_esc_returns_to_normal() {
    let mut ed = Editor::new();
    ed.on_key(Key::Char('i'));
    assert_eq!(ed.mode(), Mode::Insert);
    type_keys(&mut ed, "你好");
    ed.on_key(Key::Esc);
    assert_eq!(ed.mode(), Mode::Normal);
    assert_eq!(ed.current_buffer().text(), "你好");
    assert_eq!(ed.cursor(), 2);
}

#[test]
fn d_deletes_grapheme_and_backspace_joins_lines() {
    let mut ed = Editor::new();
    ed.on_key(Key::Char('i'));
    type_keys(&mut ed, "ab\ncd");
    ed.on_key(Key::Esc);

    ed.on_key(Key::Char('g'));
    ed.on_key(Key::Char('h'));
    assert_eq!(ed.cursor(), 3);
    ed.on_key(Key::Char('i'));
    ed.on_key(Key::Backspace);
    assert_eq!(ed.current_buffer().text(), "abcd");

    ed.on_key(Key::Esc);
    ed.on_key(Key::Char('g'));
    ed.on_key(Key::Char('g'));
    ed.on_key(Key::Char('d'));
    assert_eq!(ed.current_buffer().text(), "bcd");
}

#[test]
fn x_selects_a_line_and_d_deletes_the_selection() {
    let mut ed = Editor::new();
    ed.on_key(Key::Char('i'));
    type_keys(&mut ed, "first\nsecond\nthird");
    ed.on_key(Key::Esc);
    ed.on_key(Key::Char('g'));
    ed.on_key(Key::Char('g'));

    ed.on_key(Key::Char('x'));
    assert_eq!(ed.selection(), (0, 6));

    ed.on_key(Key::Char('x'));
    assert_eq!(ed.selection(), (0, 13));

    ed.on_key(Key::Char('d'));
    assert_eq!(ed.current_buffer().text(), "third");
}

#[test]
fn a_counted_edit_is_one_undo_point() {
    let mut ed = Editor::new();
    ed.on_key(Key::Char('i'));
    type_keys(&mut ed, "ab");
    ed.on_key(Key::Esc);
    ed.on_key(Key::Char('g'));
    ed.on_key(Key::Char('g'));
    ed.on_key(Key::Char('v'));
    ed.on_key(Key::Char('l'));
    ed.on_key(Key::Char('y'));
    let before = ed.current_buffer().text();

    type_keys(&mut ed, "10");
    ed.on_key(Key::Char('p'));
    let after = ed.current_buffer().text();
    assert_ne!(after, before, "ten pastes changed the text");
    assert!(after.len() > before.len() + 15, "all ten landed: {after:?}");

    ed.on_key(Key::Char('u'));
    assert_eq!(
        ed.current_buffer().text(),
        before,
        "one `u` takes back the whole count"
    );

    ed.on_key(Key::Char('U'));
    assert_eq!(ed.current_buffer().text(), after, "redo restores the run");
}

#[test]
fn yank_and_paste_duplicate_the_selection() {
    let mut ed = Editor::new();
    ed.on_key(Key::Char('i'));
    type_keys(&mut ed, "abc");
    ed.on_key(Key::Esc);
    ed.on_key(Key::Char('g'));
    ed.on_key(Key::Char('g'));

    ed.on_key(Key::Char('v'));
    ed.on_key(Key::Char('l'));
    assert_eq!(ed.selection(), (0, 2));
    ed.on_key(Key::Char('y'));
    ed.on_key(Key::Char('p'));
    assert_eq!(ed.current_buffer().text(), "ababc");
}

#[test]
fn word_motion_selects_the_word_and_delete_removes_it() {
    let mut ed = Editor::new();
    ed.on_key(Key::Char('i'));
    type_keys(&mut ed, "foo bar baz");
    ed.on_key(Key::Esc);
    ed.on_key(Key::Char('g'));
    ed.on_key(Key::Char('g'));

    ed.on_key(Key::Char('w'));
    assert_eq!(ed.selection(), (0, 4));
    ed.on_key(Key::Char('d'));
    assert_eq!(ed.current_buffer().text(), "bar baz");

    ed.on_key(Key::Char('g'));
    ed.on_key(Key::Char('g'));
    ed.on_key(Key::Char('e'));
    assert_eq!(ed.cursor(), 2);

    ed.on_key(Key::Char('l'));
    ed.on_key(Key::Char('b'));
    assert_eq!(ed.cursor(), 0);
}

#[test]
fn o_opens_a_line_below_in_insert_mode() {
    let mut ed = Editor::new();
    ed.on_key(Key::Char('i'));
    type_keys(&mut ed, "first");
    ed.on_key(Key::Esc);
    ed.on_key(Key::Char('o'));
    assert_eq!(ed.mode(), Mode::Insert);
    type_keys(&mut ed, "second");
    ed.on_key(Key::Esc);
    assert_eq!(ed.current_buffer().text(), "first\nsecond");
}

#[test]
fn undo_reverts_an_insert_and_redo_reapplies_it() {
    let mut ed = Editor::new();
    ed.on_key(Key::Char('i'));
    type_keys(&mut ed, "hello");
    ed.on_key(Key::Esc);
    assert_eq!(ed.current_buffer().text(), "hello");

    ed.on_key(Key::Char('u'));
    assert_eq!(ed.current_buffer().text(), "");

    ed.on_key(Key::Char('U'));
    assert_eq!(ed.current_buffer().text(), "hello");
}

#[test]
fn what_the_cursor_covers_is_what_an_edit_takes() {
    let mut ed = typed("那年冬天，雪下得早。");
    press(&mut ed, "gg");
    press(&mut ed, "f，");
    ed.on_key(Key::Char('d'));
    assert_eq!(ed.current_buffer().text(), "雪下得早。");

    let mut ed = typed("hello world");
    press(&mut ed, "gge");
    ed.on_key(Key::Char('d'));
    assert_eq!(ed.current_buffer().text(), " world");

    let mut ed = typed("春江潮水");
    press(&mut ed, "ggvl");
    assert_eq!(ed.selection(), (0, 2));

    let mut ed = typed("春江潮水");
    press(&mut ed, "gg");
    assert!(!ed.has_selection(), "standing on a 字 is not selecting it");
    ed.on_key(Key::Char('d'));
    assert_eq!(ed.current_buffer().text(), "江潮水");
}

#[test]
fn a_count_reaches_the_operators_too() {
    let mut ed = typed("abcdef");
    type_keys(&mut ed, "gg3d");
    assert_eq!(ed.current_buffer().text(), "def");
}

#[test]
fn line_operators_follow_the_selection_not_the_cursor() {
    let mut ed = typed("一\n二\n三\n四\n");
    type_keys(&mut ed, "ggxxxgJ");
    assert_eq!(ed.current_buffer().text(), "一二\n三\n四\n");

    let mut ed = typed("甲甲\n甲甲\n");
    type_keys(&mut ed, "ggx");
    ed.execute(":s/甲/乙/g").unwrap();
    assert_eq!(ed.current_buffer().text(), "乙乙\n甲甲\n");
}

#[test]
fn whole_lines_are_pasted_as_whole_lines() {
    let mut ed = typed("一二三\n四五六\n");
    type_keys(&mut ed, "ggxy");
    type_keys(&mut ed, "jlp");
    assert_eq!(ed.current_buffer().text(), "一二三\n四五六\n一二三\n");
}

#[test]
fn undo_groups_each_normal_edit_separately() {
    let mut ed = Editor::new();
    ed.on_key(Key::Char('i'));
    type_keys(&mut ed, "abc");
    ed.on_key(Key::Esc);
    ed.on_key(Key::Char('g'));
    ed.on_key(Key::Char('g'));
    ed.on_key(Key::Char('d'));
    assert_eq!(ed.current_buffer().text(), "bc");

    ed.on_key(Key::Char('u'));
    assert_eq!(ed.current_buffer().text(), "abc");
    ed.on_key(Key::Char('u'));
    assert_eq!(ed.current_buffer().text(), "");
}

#[test]
fn a_paste_asked_for_a_million_stops_at_the_ceiling() {
    let mut ed = typed("雪\n");
    press(&mut ed, "xy");
    let before = ed.current_buffer().char_count();
    let started = std::time::Instant::now();
    press(&mut ed, "1000000p");
    let grew = ed.current_buffer().char_count() - before;
    assert_eq!(grew, 2 * WRITING_MAX, "ten thousand pastes, no more");
    assert!(
        started.elapsed() < std::time::Duration::from_secs(10),
        "and it came back: {:?}",
        started.elapsed()
    );
    assert_eq!(
        ed.status,
        yumete_core::say::writing_ceiling(WRITING_MAX),
        "the clipped count is not a silent one"
    );
}
