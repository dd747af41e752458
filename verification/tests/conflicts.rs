//! Merge conflicts.

use yumete_core::buffer::Block;
use yumete_core::buffer::Buffer;
use yumete_core::conflict::Side;
use yumete_core::editor::Editor;
use yumete_core::editor::Key;

/// Presses the keys of `keys`, one by one.
fn press(ed: &mut Editor, keys: &str) {
    for c in keys.chars() {
        ed.on_key(Key::Char(c));
    }
}

/// A text with conflicts in it, with the cursor at the top.
fn merged(text: &str) -> Editor {
    let mut ed = Editor::new();
    ed.add_buffer(Buffer::from_text(text));
    ed.execute(":1").unwrap();
    ed
}

const MERGED: &str = "\
第一段
<<<<<<< HEAD
我方寫的
=======
他方寫的
>>>>>>> feature/枝
最後一段
";

#[test]
fn every_line_of_a_conflict_knows_which_side_it_is_on() {
    let ed = merged(MERGED);
    assert_eq!(ed.block_of(0), Block::Prose);
    assert_eq!(ed.block_of(1), Block::Conflict(None));
    assert_eq!(ed.block_of(2), Block::Conflict(Some(Side::Ours)));
    assert_eq!(ed.block_of(3), Block::Conflict(None));
    assert_eq!(ed.block_of(4), Block::Conflict(Some(Side::Theirs)));
    assert_eq!(ed.block_of(5), Block::Conflict(None));
    assert_eq!(ed.block_of(6), Block::Prose);
}

#[test]
fn a_paragraph_about_merges_is_not_a_merge() {
    let ed = merged("衝突長這樣：\n<<<<<<< HEAD\n然後就沒有然後了\n收筆\n");
    assert!(ed.conflicts().is_empty());
    assert_eq!(ed.block_of(2), Block::Prose);
    assert_eq!(ed.block_of(3), Block::Prose);
}

#[test]
fn the_brackets_walk_from_one_conflict_to_the_next() {
    let text = format!("{MERGED}{MERGED}");
    let mut ed = merged(&text);
    press(&mut ed, "]c");
    assert_eq!(ed.cursor_line(), 1, "{}", ed.status());
    press(&mut ed, "]c");
    assert_eq!(ed.cursor_line(), 8, "{}", ed.status());
    press(&mut ed, "]c");
    assert_eq!(ed.cursor_line(), 8);
    assert!(ed.status().contains("後面"), "{}", ed.status());
    press(&mut ed, "[c");
    assert_eq!(ed.cursor_line(), 1, "{}", ed.status());
    press(&mut ed, "[c");
    assert_eq!(ed.cursor_line(), 1);
    assert!(ed.status().contains("前面"), "{}", ed.status());
}

#[test]
fn keeping_a_side_takes_the_markers_with_it() {
    let mut ed = merged(MERGED);
    press(&mut ed, "]c");
    press(&mut ed, " mo");
    assert_eq!(
        ed.current_buffer().text(),
        "第一段\n我方寫的\n最後一段\n",
        "{}",
        ed.status()
    );
    assert!(ed.conflicts().is_empty());

    let mut ed = merged(MERGED);
    press(&mut ed, "]c");
    press(&mut ed, " mt");
    assert_eq!(ed.current_buffer().text(), "第一段\n他方寫的\n最後一段\n");

    let mut ed = merged(MERGED);
    press(&mut ed, "]c");
    press(&mut ed, " mb");
    assert_eq!(
        ed.current_buffer().text(),
        "第一段\n我方寫的\n他方寫的\n最後一段\n"
    );
}

#[test]
fn keeping_an_empty_side_leaves_no_line_at_all() {
    let mut ed = merged("上\n<<<<<<< HEAD\n=======\n新加的一句\n>>>>>>> 枝\n下\n");
    press(&mut ed, "]c");
    press(&mut ed, " mo");
    assert_eq!(ed.current_buffer().text(), "上\n下\n");
}

#[test]
fn the_three_keys_say_so_when_there_is_nothing_to_resolve() {
    let mut ed = merged(MERGED);
    press(&mut ed, " mo");
    assert!(ed.status().contains("不在"), "{}", ed.status());
    assert_eq!(ed.current_buffer().text(), MERGED, "nothing was touched");
}

#[test]
fn the_listing_is_walked_back_the_way_grep_is() {
    let text = format!("{MERGED}{MERGED}");
    let mut ed = merged(&text);
    ed.execute(":check-merge").unwrap();
    let listing = ed.current_buffer().text();
    assert!(listing.starts_with("[scratch]:2: HEAD ⇄ feature/枝\n"), "{listing}");
    assert_eq!(listing.lines().count(), 2);
    assert!(listing.lines().nth(1).unwrap().contains(":9: "), "{listing}");

    let mut ed = merged("一句話\n");
    let before = ed.buffer_position();
    ed.execute(":check-merge").unwrap();
    assert_eq!(ed.buffer_position(), before, "{}", ed.status());
    assert!(ed.status().contains("沒有"), "{}", ed.status());
}

#[test]
fn the_brackets_come_off_under_render_full_and_the_branch_stays() {
    let mut ed = merged(MERGED);
    ed.execute(":render full").unwrap();
    assert_eq!(ed.hidden_on_line(1), vec![(0, 8)], "「<<<<<<< 」 and nothing else");
    assert_eq!(ed.hidden_on_line(3), vec![(0, 7)], "「=======」 leaves an empty row");
    assert_eq!(ed.hidden_on_line(2), vec![], "nobody hides the writing");
    ed.execute(":render basic").unwrap();
    assert_eq!(ed.hidden_on_line(1), vec![], "and with the markup shown, nothing");
}
