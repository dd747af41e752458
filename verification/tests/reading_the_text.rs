//! Counting, headings, comments and notes.

use yumete_core::buffer::Syntax;
use yumete_core::editor::Editor;
use yumete_core::editor::Key;
use yumete_core::outline::chinese_number;

/// `text` typed into a fresh editor, with the cursor at the top.
fn typed(text: &str) -> Editor {
    let mut ed = Editor::new();
    ed.current_buffer_mut().set_syntax(Syntax::Text);
    ed.on_key(Key::Char('i'));
    for c in text.chars() {
        ed.on_key(if c == '\n' { Key::Enter } else { Key::Char(c) });
    }
    ed.on_key(Key::Esc);
    ed.on_key(Key::Char('g'));
    ed.on_key(Key::Char('g'));
    ed.current_buffer_mut().set_syntax(Syntax::Markdown);
    ed
}

/// Presses the keys of `keys`, one by one.
fn press(ed: &mut Editor, keys: &str) {
    for c in keys.chars() {
        ed.on_key(Key::Char(c));
    }
}

#[test]
fn counting_separates_han_from_characters() {
    let mut ed = typed("春江潮水連海平，海上明月共潮生。\n\n江流宛轉繞芳甸。");
    ed.execute(":count").unwrap();
    let report = ed.status().to_string();
    assert!(report.contains("漢字 21"), "{report}");
    assert!(report.contains("字數 24"), "{report}");
    assert!(report.contains("2 段"), "{report}");
    assert!(report.starts_with("全篇"), "{report}");
}

#[test]
fn counting_a_selection_measures_the_scene_not_the_book() {
    let mut ed = typed("春江潮水連海平");
    press(&mut ed, "gg");
    press(&mut ed, "vl");
    ed.execute(":wc").unwrap();
    let report = ed.status().to_string();
    assert!(report.starts_with("選區"), "{report}");
    assert!(report.contains("漢字 2"), "{report}");
}

#[test]
fn the_outline_is_the_hashes_a_writer_already_types() {
    let mut ed = typed("# 第一章\n那年冬天。\n## 一\n雪下得早。\n## 二\n### 附記\n");
    let headings = ed.outline();
    assert_eq!(headings.len(), 4);
    assert_eq!(headings[0], (0, 1, "第一章".to_string()));
    assert_eq!(headings[2], (4, 2, "二".to_string()));

    ed.execute(":toc 3").unwrap();
    assert_eq!(ed.cursor_line(), 4);

    ed.execute(":toc").unwrap();
    assert!(ed.panel(yumete_core::editor::Side::Left).is_some(), "{}", ed.status());
    assert!(ed.status().contains("4"), "{}", ed.status());
}

#[test]
fn the_numbers_a_chapter_is_counted_by() {
    let n = chinese_number;
    assert_eq!(n("一"), Some(1));
    assert_eq!(n("十"), Some(10), "a unit with nothing in front of it is one");
    assert_eq!(n("十一"), Some(11));
    assert_eq!(n("五十"), Some(50));
    assert_eq!(n("一百二十"), Some(120));
    assert_eq!(n("一百零八"), Some(108));
    assert_eq!(n("38"), Some(38));
    assert_eq!(n("一萬"), None);
    assert_eq!(n("１２"), None);
}

#[test]
fn the_two_comment_keys_each_force_their_own_form() {
    let mut ed = typed("甲乙\n丙丁\n");
    ed.execute(":syntax typst").unwrap();
    press(&mut ed, " c");
    assert_eq!(ed.current_buffer().text(), "// 甲乙\n丙丁\n", "空格 c is by the line");
    press(&mut ed, " c");
    assert_eq!(ed.current_buffer().text(), "甲乙\n丙丁\n", "and pressing it again undoes it");

    press(&mut ed, " C");
    assert_eq!(ed.current_buffer().text(), "/* 甲乙 */\n丙丁\n", "空格 C is a block");
    press(&mut ed, " C");
    assert_eq!(ed.current_buffer().text(), "甲乙\n丙丁\n");
}

#[test]
fn a_format_with_one_form_gives_it_to_both_keys() {
    for key in [" c", " C"] {
        let mut ed = typed("甲乙\n");
        ed.execute(":syntax markdown").unwrap();
        press(&mut ed, key);
        assert_eq!(
            ed.current_buffer().text(),
            "<!-- 甲乙 -->\n",
            "Markdown has no line comment, so `{key}` writes the one it has"
        );
    }
}

#[test]
fn plain_text_has_no_comment_and_the_key_says_so() {
    let mut ed = typed("甲乙\n");
    ed.execute(":syntax text").unwrap();
    press(&mut ed, " c");
    assert_eq!(ed.current_buffer().text(), "甲乙\n", "nothing written");
    assert!(!ed.status().is_empty(), "and it does not fail silently");
}

#[test]
fn commenting_takes_whole_lines_and_keeps_them_selected() {
    let mut ed = typed("甲乙\n丙丁\n戊己\n");
    ed.execute(":syntax typst").unwrap();
    press(&mut ed, "lvj");
    press(&mut ed, " c");
    assert_eq!(ed.current_buffer().text(), "// 甲乙\n// 丙丁\n戊己\n", "both lines, whole");
    press(&mut ed, " c");
    assert_eq!(ed.current_buffer().text(), "甲乙\n丙丁\n戊己\n", "and both come back");
}

#[test]
fn drawn_runs_are_held_wholesale_and_answered_by_line() {
    let mut ed = typed("春夏\n秋冬\n");
    assert!(!ed.has_candidate(), "a page with no candidate on it pays nothing");
    assert!(ed.drawn_on_line(0).is_empty());

    ed.set_candidate(vec![
        (0, 2, "補".to_string()),
        (1, 1, "候".to_string()),
        (0, 1, "候".to_string()),
    ]);
    assert!(ed.has_candidate());
    assert_eq!(
        ed.drawn_on_line(0),
        vec![(1, "候".to_string()), (2, "補".to_string())]
    );
    assert_eq!(ed.drawn_on_line(1), vec![(1, "候".to_string())]);
    assert!(ed.drawn_on_line(2).is_empty());

    ed.set_candidate(Vec::new());
    assert!(!ed.has_candidate());
    assert!(ed.drawn_on_line(0).is_empty());
}

#[test]
fn the_mark_that_is_wrong_is_named_on_the_page() {
    let mut ed = typed("他說,好\n");
    assert!(!ed.notes());
    assert!(ed.drawn_on_line(0).is_empty());

    ed.execute(":view-punct on").unwrap();
    assert!(ed.notes());
    assert_eq!(ed.drawn_on_line(0), vec![(3, "，".to_string())]);

    ed.execute(":view-punct off").unwrap();
    assert!(ed.drawn_on_line(0).is_empty());
}

#[test]
fn a_page_that_got_its_marks_right_carries_no_notes() {
    let mut ed = typed("他說：「好。」\n");
    ed.execute(":view-punct on").unwrap();
    assert!(ed.drawn_on_line(0).is_empty(), "{:?}", ed.drawn_on_line(0));
}

#[test]
fn a_note_is_a_note_and_not_a_character() {
    let mut ed = typed("他說,好\n");
    ed.execute(":view-punct on").unwrap();
    assert_eq!(ed.drawn_on_line(0), vec![(3, "，".to_string())]);
    for _ in 0..3 {
        ed.on_key(Key::Char('l'));
    }
    assert_eq!(ed.cursor_column(), 3);
    assert_eq!(ed.current_buffer().rope().char(ed.cursor()), '好');
}

#[test]
fn a_comma_inside_a_fence_is_code_and_is_left_alone() {
    let mut ed = typed("```rust\nlet a = (1,2);\n```\n他說,好\n");
    ed.execute(":view-punct on").unwrap();
    assert!(ed.drawn_on_line(1).is_empty(), "{:?}", ed.drawn_on_line(1));
    assert_eq!(ed.drawn_on_line(3), vec![(3, "，".to_string())]);
}

#[test]
fn render_off_asks_for_the_file_and_gets_the_file() {
    let mut ed = typed("他說,好\n");
    ed.execute(":view-punct on").unwrap();
    assert!(!ed.drawn_on_line(0).is_empty());
    ed.execute(":render off").unwrap();
    assert!(ed.drawn_on_line(0).is_empty(), "{:?}", ed.drawn_on_line(0));
}

#[test]
fn a_note_follows_the_line_as_it_is_written() {
    let mut ed = typed("他說,好\n");
    ed.execute(":view-punct on").unwrap();
    assert_eq!(ed.drawn_on_line(0).len(), 1);
    ed.on_key(Key::Char('l'));
    ed.on_key(Key::Char('l'));
    ed.on_key(Key::Char('r'));
    ed.on_key(Key::Char('，'));
    assert_eq!(ed.line_text(0).unwrap().trim_end(), "他說，好");
    assert!(ed.drawn_on_line(0).is_empty(), "{:?}", ed.drawn_on_line(0));
}

#[test]
fn the_two_ideographs_outside_the_unified_blocks_count_as_han() {
    let mut ed = Editor::new();
    ed.current_buffer_mut().insert(0, "二〇二五年").expect("the fixture buffer is writable");
    ed.execute(":count").unwrap();
    let report = ed.status().to_string();
    assert!(report.contains("漢字 5"), "{report}");
}
