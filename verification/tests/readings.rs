//! Readings beside the text.

use yumete_core::buffer::Syntax;
use yumete_core::editor::Editor;
use yumete_core::editor::Key;
use yumete_core::editor::Mode;
use yumete_core::ruby::Dialect;
use yumete_core::ruby::Dialects;
use yumete_core::state::Render;

/// `text` typed into a fresh editor, with the cursor at the top.
fn typed(text: &str) -> Editor {
    let mut ed = Editor::new();
    ed.current_buffer_mut().set_syntax(Syntax::Text);
    ed.on_key(Key::Char('i'));
    for c in text.chars() {
        ed.on_key(if c == '\n' { Key::Enter } else { Key::Char(c) });
    }
    ed.on_key(Key::Esc);
    ed.on_key(Key::Char('g'));
    ed.on_key(Key::Char('g'));
    ed.current_buffer_mut().set_syntax(Syntax::Markdown);
    ed
}

/// Presses the keys of `keys`, one by one.
fn press(ed: &mut Editor, keys: &str) {
    for c in keys.chars() {
        ed.on_key(Key::Char(c));
    }
}

/// What stands on the line at the foot of the page.
fn line_of(mark: &str, line: &str) -> Option<(String, String)> {
    Some((mark.to_string(), line.to_string()))
}

/// Types a reading on the line at the foot of the page and hands it in.
fn submit_reading(ed: &mut Editor, reading: &str) {
    for c in reading.chars() {
        ed.on_key(Key::Char(c));
    }
    ed.on_key(Key::Enter);
}

/// Types a reading and leaves it.
fn submit_reading_cancelled(ed: &mut Editor, reading: &str) {
    for c in reading.chars() {
        ed.on_key(Key::Char(c));
    }
    ed.on_key(Key::Esc);
}

#[test]
fn space_r_opens_the_reading_prompt() {
    let mut ed = typed("那年冬天。\n");
    press(&mut ed, " r");
    assert_eq!(ed.mode(), Mode::Ruby, "{}", ed.status());
}

#[test]
fn ruby_rendering_is_set_per_dialect() {
    let mut ed = Editor::new();
    assert!(
        ed.ruby().contains(Dialect::Html),
        "HTML readings are laid out by default"
    );
    ed.execute(":ruby off").unwrap();
    assert!(ed.ruby().is_empty());
    ed.execute(":ruby basic").unwrap();
    assert!(ed.ruby().is_empty());
    assert_eq!(ed.ruby_level(), Render::Basic);
    ed.execute(":ruby full").unwrap();
    assert!(ed.ruby().contains(Dialect::Html));
    ed.execute(":ruby basic").unwrap();
    ed.execute(":ruby-html").unwrap();
    assert!(ed.ruby().contains(Dialect::Html));

    ed.execute(":ruby-typst").unwrap();
    assert!(ed.ruby().contains(Dialect::Typst));
    assert!(ed.ruby().contains(Dialect::Html));
    ed.execute(":ruby-html off").unwrap();
    assert!(!ed.ruby().contains(Dialect::Html));
    assert!(ed.ruby().contains(Dialect::Typst));
}

#[test]
fn format_ruby_rewrites_every_reading_into_one_dialect() {
    let mut ed = typed("讀<ruby>漢<rt>hàn</rt></ruby>和#ruby(\"字\", \"zì\")");
    ed.execute(":ruby-format typst").unwrap();
    assert_eq!(
        ed.current_buffer().text(),
        "讀#ruby(\"漢\", \"hàn\")和#ruby(\"字\", \"zì\")"
    );
    ed.execute(":ruby-format typst").unwrap();
    assert!(ed.status().contains("已經是"), "{}", ed.status());

    ed.execute(":ruby-format html").unwrap();
    assert_eq!(
        ed.current_buffer().text(),
        "讀<ruby>漢<rt>hàn</rt></ruby>和<ruby>字<rt>zì</rt></ruby>"
    );
}

#[test]
fn format_ruby_leaves_the_examples_in_the_fence_alone() {
    let mut ed = typed(
        "讀<ruby>漢<rt>hàn</rt></ruby>\n\n```html\n<ruby>桜<rt>さくら</rt></ruby>\n```\n\n又一個<ruby>字<rt>zì</rt></ruby>\n",
    );
    ed.execute(":ruby-format typst").unwrap();
    let text = ed.current_buffer().text();
    assert!(text.contains("讀#ruby(\"漢\", \"hàn\")"), "{text}");
    assert!(text.contains("又一個#ruby(\"字\", \"zì\")"), "{text}");
    assert!(text.contains("<ruby>桜<rt>さくら</rt></ruby>"), "{text}");
    assert!(!ed.status().contains("讀不出來"), "{}", ed.status());
}

#[test]
fn a_typst_reading_is_read_too() {
    let mut ed = typed("讀#ruby(\"漢字\", \"hàn zì\")");
    ed.set_ruby(Dialects::only(Dialect::Typst));
    press(&mut ed, "gg3l");
    ed.execute(":ruby").unwrap();
    assert_eq!(ed.prompt(), line_of("注", "hàn zì"));
}

#[test]
fn ruby_mode_annotates_a_selection() {
    let mut ed = typed("他說口很難");
    press(&mut ed, "gg2lv");
    ed.execute(":ruby").unwrap();
    assert_eq!(ed.mode(), Mode::Ruby);
    assert_eq!(ed.prompt(), line_of("注", ""), "a fresh reading");
    submit_reading(&mut ed, "kǒu");
    assert_eq!(
        ed.current_buffer().text(),
        "他說<ruby>口<rt>kǒu</rt></ruby>很難"
    );
    assert_eq!(ed.mode(), Mode::Normal);
}

#[test]
fn ruby_mode_loads_an_existing_reading_to_correct_it() {
    let mut ed = typed("他說<ruby>口<rt>kou</rt></ruby>很難");
    press(&mut ed, "gg5l");
    ed.execute(":ruby").unwrap();
    assert_eq!(ed.prompt(), line_of("注", "kou"), "prefilled, not blank");
    ed.on_key(Key::Backspace);
    ed.on_key(Key::Backspace);
    submit_reading(&mut ed, "ǒu");
    assert_eq!(
        ed.current_buffer().text(),
        "他說<ruby>口<rt>kǒu</rt></ruby>很難"
    );
}

#[test]
fn an_empty_reading_takes_the_annotation_off() {
    let mut ed = typed("他說<ruby>口<rt>kǒu</rt></ruby>很難");
    press(&mut ed, "gg5l");
    ed.execute(":ruby").unwrap();
    for _ in 0..8 {
        ed.on_key(Key::Backspace);
    }
    assert_eq!(
        ed.mode(),
        Mode::Ruby,
        "backspacing the reading, not leaving"
    );
    ed.on_key(Key::Enter);
    assert_eq!(ed.current_buffer().text(), "他說口很難", "markup gone too");
}

#[test]
fn a_bar_annotates_each_character_separately() {
    let mut ed = typed("讀漢字");
    press(&mut ed, "gglvll");
    ed.execute(":ruby").unwrap();
    submit_reading(&mut ed, "hàn|zì");
    assert_eq!(
        ed.current_buffer().text(),
        "讀<ruby>漢<rt>hàn</rt></ruby><ruby>字<rt>zì</rt></ruby>"
    );
}

#[test]
fn ruby_mode_annotates_the_character_under_the_cursor() {
    let mut ed = typed("他說口很難");
    press(&mut ed, "gg2l");
    ed.execute(":ruby").unwrap();
    assert_eq!(ed.mode(), Mode::Ruby);
    submit_reading(&mut ed, "kǒu");
    assert_eq!(
        ed.current_buffer().text(),
        "他說<ruby>口<rt>kǒu</rt></ruby>很難"
    );
}

#[test]
fn ruby_mode_needs_something_to_annotate() {
    let mut ed = Editor::new();
    ed.execute(":ruby").unwrap();
    assert_eq!(ed.mode(), Mode::Normal, "nothing to annotate");
    assert!(!ed.status().is_empty(), "and it says so");
}

#[test]
fn escape_leaves_ruby_mode_without_writing() {
    let mut ed = typed("他說口很難");
    press(&mut ed, "gg2lvl");
    ed.execute(":ruby").unwrap();
    submit_reading_cancelled(&mut ed, "kǒu");
    assert_eq!(ed.current_buffer().text(), "他說口很難");
    assert_eq!(ed.mode(), Mode::Normal);
}

#[test]
fn ruby_markup_is_not_counted_as_writing() {
    let mut ed = Editor::new();
    ed.current_buffer_mut()
        .insert(0, "<ruby>永和<rt>えいわ</rt></ruby>九年，歲在癸丑。")
            .expect("the buffer is not locked");
    ed.execute(":count").unwrap();
    let report = ed.status().to_string();
    assert!(report.contains("漢字 8"), "{report}");
    assert!(report.contains("字數 10"), "{report}");
}
