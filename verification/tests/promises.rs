//! What holds of the editor as a whole, tried on values.

use yumete_core::block::{see_line, Open};
use yumete_core::buffer::{Block, Buffer, Syntax};
use yumete_core::editor::{Editor, Key, Mode};
use yumete_core::path::FilePath;
use yumete_core::outcome::{CommandError, CommandOutcome, EditorError};
use yumete_core::ruby::{annotate, rewrite, without_readings, write_ruby, Dialect};

/// An editor that holds `text`, with the cursor at the top.
fn holding(text: &str) -> Editor {
    let mut ed = Editor::new();
    ed.add_buffer(Buffer::from_text(text));
    ed
}

/// Presses the keys of `keys`, one by one.
fn press(ed: &mut Editor, keys: &str) {
    for c in keys.chars() {
        ed.on_key(Key::Char(c));
    }
}

/// What the buffer on the page holds.
fn text(ed: &Editor) -> String {
    ed.current_buffer().text()
}

#[test]
fn undo_and_redo_are_opposites() {
    let mut ed = holding("甲乙丙\n");
    press(&mut ed, "d");
    press(&mut ed, "d");
    assert_eq!(text(&ed), "丙\n");
    press(&mut ed, "u");
    assert_eq!(text(&ed), "乙丙\n");
    press(&mut ed, "U");
    assert_eq!(text(&ed), "丙\n");
    press(&mut ed, "uu");
    assert_eq!(text(&ed), "甲乙丙\n");
    assert_eq!(ed.cursor(), 0);
    press(&mut ed, "u");
    assert_eq!(ed.status(), "已經是最早的改動");
    press(&mut ed, "UU");
    assert_eq!(text(&ed), "丙\n");
    press(&mut ed, "U");
    assert_eq!(ed.status(), "已經是最新的改動");
}

#[test]
fn a_new_edit_leaves_nothing_to_redo() {
    let mut ed = holding("甲乙丙\n");
    press(&mut ed, "du");
    press(&mut ed, "ld");
    press(&mut ed, "U");
    assert_eq!(text(&ed), "甲丙\n");
}

#[test]
fn a_counted_join_and_a_counted_paste_are_taken_back_at_once() {
    let mut ed = holding("一\n二\n三\n四\n");
    press(&mut ed, "3gJ");
    assert_eq!(text(&ed), "一二三四\n");
    press(&mut ed, "u");
    assert_eq!(text(&ed), "一\n二\n三\n四\n");

    press(&mut ed, "y5p");
    assert_eq!(text(&ed), "一一一一一一\n二\n三\n四\n");
    press(&mut ed, "u");
    assert_eq!(text(&ed), "一\n二\n三\n四\n");
}

#[test]
fn joining_puts_a_space_between_words_and_none_between_han() {
    let mut ed = holding("one\n  two\n");
    press(&mut ed, "gJ");
    assert_eq!(text(&ed), "one two\n");
    let mut ed = holding("甲\n　乙\n");
    press(&mut ed, "gJ");
    assert_eq!(text(&ed), "甲乙\n");
    let mut ed = holding("甲\none\n");
    press(&mut ed, "gJ");
    assert_eq!(text(&ed), "甲 one\n", "one of the two is narrow");
    let mut ed = holding("\n乙\n");
    press(&mut ed, "gJ");
    assert_eq!(text(&ed), "乙\n", "nothing before");
    let mut ed = holding("乙\n");
    press(&mut ed, "gJ");
    assert_eq!(text(&ed), "乙\n", "no line below");
}

#[test]
fn writing_over_takes_one_grapheme_for_one() {
    // か with its mark, and a family of several code points.
    let mut ed = holding("か\u{3099}👨\u{200d}👩\u{200d}👧b\n");
    press(&mut ed, "xrZ");
    assert_eq!(text(&ed), "ZZZ\n");
    let mut ed = holding("one\r\ntwo\r\n");
    press(&mut ed, "%r■");
    assert_eq!(text(&ed), "■■■\r\n■■■\r\n", "line endings stay");
    assert_eq!(ed.current_buffer().line_count(), 3);
}

#[test]
fn writing_over_selects_what_was_written() {
    let mut ed = holding("か\u{3099}x\n");
    press(&mut ed, "rZ");
    assert_eq!(text(&ed), "Zx\n");
    assert_eq!((ed.cursor(), ed.selection()), (0, (0, 1)), "still one grapheme");
    press(&mut ed, "l");
    assert_eq!(ed.cursor(), 1, "one step is one character");
    let mut ed = holding("か\u{3099}か\u{3099}xy\n");
    press(&mut ed, "vlrZ");
    assert_eq!(text(&ed), "ZZxy\n");
    assert_eq!(ed.selection(), (0, 2));
}

#[test]
fn a_step_is_undone_by_the_step_back() {
    for (line, n) in [("第 7 章\n", 3), ("x10\n", 10), ("0\n", 4), ("a1 b2\n", 1)] {
        let mut ed = holding(line);
        press(&mut ed, &n.to_string());
        ed.on_key(Key::Ctrl('x'));
        assert_ne!(text(&ed), line);
        press(&mut ed, &n.to_string());
        ed.on_key(Key::Ctrl('a'));
        assert_eq!(text(&ed), line);
    }
}

#[test]
fn a_counted_edit_is_redone_at_once() {
    let mut ed = holding("一\n二\n三\n四\n");
    press(&mut ed, "y3p");
    let after = text(&ed);
    press(&mut ed, "u");
    assert_eq!(text(&ed), "一\n二\n三\n四\n");
    press(&mut ed, "U");
    assert_eq!(text(&ed), after);
}

#[test]
fn every_line_touched_is_indented() {
    let mut ed = holding("一\n\n\t三\n四\n");
    press(&mut ed, "vjj>");
    assert_eq!(text(&ed), "    一\n    \n    \t三\n四\n");
    let mut ed = holding("      一\n  二\n\u{3000}三\n    四\n");
    press(&mut ed, "vjj<");
    assert_eq!(text(&ed), "  一\n二\n\u{3000}三\n    四\n");
}

#[test]
fn whole_lines_reach_the_end_of_the_last() {
    let mut ed = holding("一二三\n四五六");
    ed.set_cursor(1);
    press(&mut ed, "vjX");
    assert_eq!(ed.selection(), (0, 7));
    press(&mut ed, "X");
    assert_eq!(ed.selection(), (0, 7), "growing again changes nothing");
    let mut ed = holding("一か\u{3099}\r\n二\n");
    press(&mut ed, "X");
    assert_eq!(ed.selection(), (0, 5), "its break with it");
}

#[test]
fn a_case_may_take_more_than_one_character() {
    let mut ed = holding("ﬁß é\n");
    press(&mut ed, "x`u");
    assert_eq!(text(&ed), "FISS É\n");
    assert_eq!(ed.selection(), (0, 7), "what was written is selected");
    let mut ed = holding("ÀB\n");
    press(&mut ed, "x`l");
    assert_eq!(text(&ed), "àb\n");
    let mut ed = holding("aB\n");
    press(&mut ed, "x~");
    assert_eq!(text(&ed), "Ab\n");
}

#[test]
fn a_number_keeps_its_zeros_and_its_sign() {
    for (before, keys, after) in [
        ("第 007 章", "3", "第 010 章"),
        ("-1", "3", "2"),
        ("x 99 y", "1", "x 100 y"),
        ("-010", "5", "-005"),
        ("no number", "1", "no number"),
    ] {
        let mut ed = holding(before);
        press(&mut ed, keys);
        ed.on_key(Key::Ctrl('a'));
        assert_eq!(text(&ed), after, "{before}");
    }
    let mut ed = holding("0");
    ed.on_key(Key::Ctrl('x'));
    assert_eq!(text(&ed), "-1");
    let mut ed = holding("9223372036854775807");
    ed.on_key(Key::Ctrl('a'));
    assert_eq!(text(&ed), "9223372036854775807", "it stops at the greatest");
    let mut ed = holding("99999999999999999999");
    ed.on_key(Key::Ctrl('a'));
    assert_eq!(text(&ed), "99999999999999999999", "more than is counted");
}

#[test]
fn a_least_number_is_not_stepped_into_its_absolute_value() {
    let ed = holding("-09223372036854775807");
    assert!(ed.can_bump_number(1));
    assert!(!ed.can_bump_number(-1), "its absolute value is no number");
    let ed = holding("-9223372036854775807");
    assert!(ed.can_bump_number(-1), "without zeros it is written as it is");
    let mut ed = holding("-09223372036854775807");
    ed.current_buffer_mut().set_readonly(true);
    ed.bump_number(-1);
    let said = ed.status().to_string();
    assert_eq!(text(&ed), "-09223372036854775807");
    press(&mut ed, "l");
    ed.on_key(Key::Ctrl('x'));
    assert_eq!(ed.status(), said, "the lock is what is said");
    press(&mut ed, "i");
    assert_eq!(ed.status(), said, "as of every other way in");
}

#[test]
fn indenting_and_unindenting_a_line_are_opposites() {
    let mut ed = holding("甲\n  乙\n");
    ed.set_indent_width(2);
    press(&mut ed, ">");
    assert_eq!(text(&ed), "  甲\n  乙\n");
    press(&mut ed, "<");
    assert_eq!(text(&ed), "甲\n  乙\n");
    press(&mut ed, "<");
    assert_eq!(text(&ed), "甲\n  乙\n", "there is nothing to take");
    press(&mut ed, "j<");
    assert_eq!(text(&ed), "甲\n乙\n");
}

#[test]
fn flipping_keeps_the_selection() {
    let mut ed = holding("甲乙丙丁\n");
    press(&mut ed, "lvl");
    assert_eq!(ed.selection(), (1, 3));
    assert_eq!(ed.cursor(), 2);
    ed.on_key(Key::Alt(';'));
    assert_eq!(ed.selection(), (1, 3));
    assert_eq!(ed.cursor(), 1);
    ed.on_key(Key::Alt(';'));
    assert_eq!(ed.cursor(), 2);
}

#[test]
fn whole_lines_cover_what_was_selected() {
    let mut ed = holding("甲乙\n丙丁\n戊己\n");
    press(&mut ed, "lvj");
    press(&mut ed, "X");
    assert_eq!(ed.selection(), (0, 6));
}

#[test]
fn leaving_never_loses_what_was_not_saved() {
    let mut ed = holding("甲\n");
    ed.add_buffer(Buffer::from_text("乙\n"));
    press(&mut ed, "d");
    assert_eq!(ed.quit_all(false), Err(EditorError::UnsavedChanges));
    ed.next_buffer();
    assert_eq!(ed.buffer_position(), (1, 2));
    assert_eq!(ed.quit_all(false), Err(EditorError::UnsavedChanges));
    assert_eq!(ed.buffer_position(), (2, 2), "the file that holds it up is shown");
    assert_eq!(ed.quit_all(true), Ok(CommandOutcome::Quit));
    assert_eq!(ed.close_buffer(true), Ok(CommandOutcome::Continue));
    assert_eq!(ed.quit(false), Ok(CommandOutcome::Quit));
}

#[test]
fn a_locked_text_stays_whatever_is_pressed() {
    let before = "<!-- 甲 -->\n<<<<<<< a\n乙 1\n=======\n丙\n>>>>>>> b\n（丁）\n";
    let mut ed = holding(before);
    ed.current_buffer_mut().set_readonly(true);
    for keys in [
        "d", "c甲", "yp", "yP", "o", "O", "i甲", "a甲", "A甲", "I甲", "r甲", "x~", "`u", ">", "<",
        "gJ", "R", "ms(", "md", "mr（「", " c", " C", " mo", "jj mt", "u", "U", "3.", "q", " r",
    ] {
        press(&mut ed, keys);
        ed.on_key(Key::Enter);
        ed.on_key(Key::Esc);
        ed.on_key(Key::Ctrl('a'));
        assert_eq!(text(&ed), before, "{keys}");
        assert_eq!(ed.mode(), Mode::Normal, "{keys}");
    }
    ed.paste_text("甲");
    ed.insert_committed("甲");
    ed.execute("%s/./x/g").unwrap();
    ed.execute("ruby-format html").unwrap();
    assert_eq!(text(&ed), before);
    assert_eq!(ed.status(), "這個檔案是只讀的");
}

#[test]
fn escape_leads_back_from_everywhere() {
    for keys in ["", "i甲", ":q", "/甲", "g", "2", "\"", " b", " r", "v"] {
        let mut ed = holding("甲乙\n");
        press(&mut ed, keys);
        ed.on_key(Key::Esc);
        assert_eq!(ed.mode(), Mode::Normal, "{keys}");
        assert_eq!(ed.pending_count(), None, "{keys}");
        assert!(!ed.takes_a_character());
    }
}

#[test]
fn undo_is_of_the_buffer_on_the_page() {
    let mut ed = holding("甲乙\n");
    press(&mut ed, "d");
    ed.add_buffer(Buffer::from_text("丙丁\n"));
    press(&mut ed, "d");
    ed.prev_buffer();
    press(&mut ed, "u");
    assert_eq!(text(&ed), "甲乙\n");
    ed.next_buffer();
    assert_eq!(text(&ed), "丁\n");
}

#[test]
fn turning_there_and_back_comes_to_the_place_that_was_left() {
    let mut ed = holding("甲乙丙\n");
    press(&mut ed, "ll");
    ed.add_buffer(Buffer::from_text("丁\n"));
    ed.next_buffer();
    assert_eq!(ed.cursor(), 2);
    press(&mut ed, "gngp");
    assert_eq!(ed.cursor(), 2);
    assert_eq!(text(&ed), "甲乙丙\n");
}

#[test]
fn a_search_goes_round() {
    let mut ed = holding("甲乙甲乙\n");
    press(&mut ed, "/甲");
    ed.on_key(Key::Enter);
    assert_eq!(ed.selection(), (2, 3), "the first after the cursor");
    press(&mut ed, "n");
    assert_eq!(ed.selection(), (0, 1), "and round");
    press(&mut ed, "N");
    assert_eq!(ed.selection(), (2, 3), "and back");
}

#[test]
fn a_pattern_that_is_none_is_said() {
    let mut ed = holding("甲(乙\n");
    press(&mut ed, "/(");
    ed.on_key(Key::Enter);
    assert!(ed.status().contains('('), "{}", ed.status());
    assert_eq!(ed.selection(), (0, 1));
    ed.execute("%s/(/x/").unwrap();
    assert!(ed.status().contains('('), "{}", ed.status());
    assert_eq!(text(&ed), "甲(乙\n");
    ed.execute("%s/(/x/f").unwrap();
    assert_eq!(text(&ed), "甲x乙\n", "as the character it is");
}

#[test]
fn a_substitution_takes_groups_and_flags() {
    let mut ed = holding("ab ab\nAb\n");
    ed.execute("%s/(a)(b)/$2$1/g").unwrap();
    assert_eq!(text(&ed), "ba ba\nAb\n");
    assert_eq!(ed.status(), "替換了 2 處");
    press(&mut ed, "u");
    assert_eq!(text(&ed), "ab ab\nAb\n", "one undo takes it back");
    ed.execute("%s/ab/x/gi").unwrap();
    assert_eq!(text(&ed), "x x\nx\n");
    ed.execute("%s/x/y/gn").unwrap();
    assert_eq!(text(&ed), "x x\nx\n", "counted, not replaced");
    assert_eq!(ed.status(), "找到 3 處");
    ed.execute("s/x/y/").unwrap();
    assert_eq!(text(&ed), "y x\nx\n", "the first on the line");
    ed.execute("%s/nowhere/y/").unwrap();
    assert_eq!(ed.status(), "找不到 nowhere");
}

#[test]
fn what_is_no_command_is_an_error() {
    let mut ed = holding("甲\n");
    assert_eq!(
        ed.execute("frobnicate now"),
        Err(EditorError::Command(CommandError::Unknown("frobnicate".to_string())))
    );
    assert_eq!(
        ed.execute("syntax latin"),
        Err(EditorError::Command(CommandError::Argument("latin".to_string())))
    );
    assert_eq!(ed.execute("w"), Err(EditorError::NoFileName));
    ed.add_buffer(Buffer::read_from(FilePath::new("/a/甲.md"), "甲"));
    assert_eq!(ed.execute("w"), Ok(CommandOutcome::Write));
    assert_eq!(ed.current_buffer().display_name(), "甲.md");
    assert_eq!(ed.execute(""), Ok(CommandOutcome::Continue));
}

#[test]
fn lines_become_comments_and_lines_again() {
    for (syntax, keys, before, after) in [
        ("markdown", " c", "甲\n", "<!-- 甲 -->\n"),
        ("typst", " c", "甲\n\n乙\n", "// 甲\n\n// 乙\n"),
        ("typst", " C", "甲\n\n乙\n", "/* 甲\n\n乙 */\n"),
    ] {
        let mut ed = holding(before);
        ed.execute(&format!("syntax {syntax}")).unwrap();
        press(&mut ed, "%");
        press(&mut ed, keys);
        assert_eq!(text(&ed), after);
        press(&mut ed, keys);
        assert_eq!(text(&ed), before);
    }
}

#[test]
fn a_written_reading_reads_back() {
    for d in [Dialect::Html, Dialect::Typst] {
        let put = write_ruby(d, "漢字", "hàn zì");
        assert_eq!(without_readings(&format!("讀{put}完")), "讀漢字完");
        let other = if d == Dialect::Html { Dialect::Typst } else { Dialect::Html };
        assert_eq!(rewrite(d, &rewrite(other, &put)), put);
    }
    assert_eq!(annotate(Dialect::Html, "漢字", ""), "漢字");
    assert_eq!(annotate(Dialect::Typst, "漢", "hàn"), "#ruby(\"漢\", \"hàn\")");
    assert_eq!(
        annotate(Dialect::Html, "漢字", "a|b|c"),
        "<ruby>漢字<rt>a|b|c</rt></ruby>",
        "three readings for two characters"
    );
    assert_eq!(without_readings("<ruby>半截"), "<ruby>半截", "no reading follows");
}

#[test]
fn what_is_drawn_comes_in_the_order_of_its_columns() {
    let mut ed = holding("甲,乙.\n");
    ed.execute("view-punct on").unwrap();
    ed.set_candidate(vec![(0, 3, "候".to_string()), (0, 0, "補".to_string())]);
    assert_eq!(
        ed.drawn_on_line(0),
        vec![
            (0, "補".to_string()),
            (2, "，".to_string()),
            (3, "候".to_string()),
            (4, "。".to_string()),
        ]
    );
    assert_eq!(ed.line_text(0).as_deref(), Some("甲,乙."), "and nothing of it is written");
    assert_eq!(ed.line_text(2), None);
}

#[test]
fn blocks_are_read_line_by_line() {
    let line: Vec<char> = "  ```rust".chars().collect();
    assert_eq!(see_line(Syntax::Markdown, Open::Nothing, &line), (Block::Literal, Open::Fence));
    assert_eq!(see_line(Syntax::Markdown, Open::Fence, &line), (Block::Literal, Open::Nothing));
    assert_eq!(see_line(Syntax::Text, Open::Nothing, &line), (Block::Prose, Open::Nothing));
    let line: Vec<char> = "// x".chars().collect();
    assert_eq!(see_line(Syntax::Typst, Open::Nothing, &line), (Block::Comment, Open::Nothing));
    assert_eq!(see_line(Syntax::Markdown, Open::Nothing, &line), (Block::Prose, Open::Nothing));

    let mut ed = holding("/* a\nb */\nc\n");
    ed.execute("syntax typst").unwrap();
    let blocks: Vec<Block> = (0..4).map(|l| ed.block_of(l)).collect();
    assert_eq!(blocks, vec![Block::Comment, Block::Comment, Block::Prose, Block::Prose]);
}

#[test]
fn wide_characters_count_two_columns() {
    let mut ed = holding("漢a字\nabcde\n");
    press(&mut ed, "ll");
    assert_eq!(ed.cursor_visual_column(), 3);
    assert_eq!(ed.cursor_column(), 2);
    press(&mut ed, "j");
    assert_eq!(ed.cursor(), 7, "the fourth column of the line below");
}

#[test]
fn a_key_the_prompt_does_not_take_changes_nothing() {
    let mut ed = holding("甲\n");
    press(&mut ed, ":rea");
    assert_eq!(ed.prompt_ghost(), "donly");
    ed.on_key(Key::PageUp);
    ed.on_key(Key::Tab);
    assert_eq!(ed.prompt_before_caret(), "readonly");
    ed.on_key(Key::Enter);
    assert_eq!(ed.status(), "readonly off：這個檔案可以改");
}
