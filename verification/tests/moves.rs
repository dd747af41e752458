//! Moving about and selecting.

use yumete_core::buffer::Syntax;
use yumete_core::editor::Editor;
use yumete_core::editor::Key;
use yumete_core::editor::Mode;

/// `text` typed into a fresh editor, with the cursor at the top.
fn typed(text: &str) -> Editor {
    let mut ed = Editor::new();
    ed.current_buffer_mut().set_syntax(Syntax::Text);
    ed.on_key(Key::Char('i'));
    for c in text.chars() {
        ed.on_key(if c == '\n' { Key::Enter } else { Key::Char(c) });
    }
    ed.on_key(Key::Esc);
    ed.on_key(Key::Char('g'));
    ed.on_key(Key::Char('g'));
    ed.current_buffer_mut().set_syntax(Syntax::Markdown);
    ed
}

/// As [`typed`], each line given by an input method.
fn typed_by_line(text: &str) -> Editor {
    let mut ed = Editor::new();
    ed.current_buffer_mut().set_syntax(Syntax::Text);
    ed.on_key(Key::Char('i'));
    for line in text.lines() {
        ed.insert_committed(line);
        ed.on_key(Key::Enter);
    }
    ed.on_key(Key::Esc);
    ed.on_key(Key::Char('g'));
    ed.on_key(Key::Char('g'));
    ed.current_buffer_mut().set_syntax(Syntax::Markdown);
    ed
}

/// Presses the keys of `keys`, one by one.
fn press(ed: &mut Editor, keys: &str) {
    for c in keys.chars() {
        ed.on_key(Key::Char(c));
    }
}

/// Presses the keys of `s`, with a line break for the enter key.
fn type_keys(ed: &mut Editor, s: &str) {
    for c in s.chars() {
        ed.on_key(if c == '\n' { Key::Enter } else { Key::Char(c) });
    }
}

/// What stands on the line at the foot of the page.
fn line_of(mark: &str, line: &str) -> Option<(String, String)> {
    Some((mark.to_string(), line.to_string()))
}

#[test]
fn n_and_shift_n_cost_the_same() {
    let mut text = String::new();
    for i in 0..20_000 {
        match i % 10 {
            0 => text.push_str("阿寧走到窗前。\n"),
            _ => text.push_str("這一行沒有要找的東西，只是把檔案撐開。\n"),
        }
    }
    let press = |key: char| -> std::time::Duration {
        let mut ed = typed_by_line(&text);
        ed.execute(":10000").unwrap();
        ed.on_key(Key::Char('/'));
        for c in "阿寧".chars() {
            ed.on_key(Key::Char(c));
        }
        ed.on_key(Key::Enter);
        let n = 40;
        ed.on_key(Key::Char(key));
        let began = std::time::Instant::now();
        for _ in 0..n {
            ed.on_key(Key::Char(key));
        }
        began.elapsed() / n
    };
    press('n');
    let forward = press('n');
    let backward = press('N');
    assert!(
        backward <= forward * 6,
        "`N` cost {backward:?} against `n`'s {forward:?} — it is reading the whole file"
    );
}

#[test]
fn f_and_the_pair_keys_take_what_the_ime_committed() {
    let mut ed = typed("春風又綠江南岸，明月何時照我還\n");
    ed.on_key(Key::Char('f'));
    assert!(ed.takes_a_character(), "the front end must run the IME for `f`");
    ed.insert_committed("，");
    assert_eq!(
        ed.current_buffer().rope().char(ed.cursor()),
        '，',
        "`f` stops on the 逗號 it was given"
    );
    assert!(!ed.takes_a_character(), "and the pending state is spent");

    let mut ed = typed("一，二，三\n");
    ed.on_key(Key::Char('f'));
    ed.insert_committed("，");
    ed.on_key(Key::Alt('.'));
    assert_eq!(ed.cursor(), 3, "`Alt-.` looks for the same 逗號 again");

    let mut ed = typed("一，二，三，四\n");
    press(&mut ed, "2");
    ed.on_key(Key::Char('f'));
    ed.insert_committed("，");
    assert_eq!(ed.cursor(), 3, "`2f，` is the second one");

    let mut ed = typed("錢塘江上\n");
    press(&mut ed, "v3lms");
    assert!(ed.takes_a_character(), "the front end must run the IME for `ms`");
    ed.insert_committed("「");
    assert_eq!(ed.current_buffer().text(), "「錢塘江上」\n");

    let mut ed = typed("「錢塘江上」\n");
    press(&mut ed, "lmi");
    ed.insert_committed("「");
    assert_eq!(ed.selection(), (1, 5), "`mi「` takes what the pair holds");
    press(&mut ed, "mr");
    ed.insert_committed("「");
    ed.insert_committed("『");
    assert_eq!(ed.current_buffer().text(), "『錢塘江上』\n");
}

#[test]
fn one_g_goes_to_the_first_line() {
    let mut ed = typed("一\n二\n三\n四\n");
    press(&mut ed, "1G");
    assert_eq!(ed.cursor_line(), 0, "1G is the first line");
    press(&mut ed, "3G");
    assert_eq!(ed.cursor_line(), 2);
    press(&mut ed, "G");
    assert_eq!(ed.cursor_line(), 3, "a bare G is still the last line");
}

#[test]
fn a_sentence_motion_stops_before_the_next_sentence() {
    let mut ed = typed("第一句。第二句。第三句。\n");
    press(&mut ed, "Ld");
    assert_eq!(ed.current_buffer().text(), "第二句。第三句。\n");
    let mut ed = typed("第一段。\n第二段。\n");
    press(&mut ed, "}d");
    assert_eq!(ed.current_buffer().text(), "第二段。\n");

    let mut ed = typed("第一句。第二句。第三句。\n");
    press(&mut ed, "lllLd");
    assert_eq!(ed.current_buffer().text(), "第一句。第三句。\n");
}

#[test]
fn a_pattern_with_no_capital_in_it_ignores_case() {
    let mut ed = typed("一段 TODO 二段 todo 三段。");
    let find = |ed: &mut Editor, pattern: &str| {
        ed.set_cursor(0);
        ed.on_key(Key::Char('/'));
        for c in pattern.chars() {
            ed.on_key(Key::Char(c));
        }
        ed.on_key(Key::Enter);
        ed.selection()
    };
    assert_eq!(find(&mut ed, "todo"), (3, 7), "lower case takes either");
    assert_eq!(find(&mut ed, "TODO"), (3, 7));
    assert_eq!(find(&mut ed, "(?-i)todo"), (11, 15), "the lower-case one");
    ed.set_smart_case(false);
    assert_eq!(find(&mut ed, "todo"), (11, 15), "off: lower case means lower");
}

#[test]
fn w_takes_a_word_and_e_takes_a_clause() {
    let text = "他抬頭看了看那片天，山路已經看不見了。「走吧！」他說 OK 了。\n";
    let at = |n: usize, key: char| {
        let mut ed = typed(text);
        for _ in 0..n {
            ed.on_key(Key::Char('l'));
        }
        ed.on_key(Key::Char(key));
        let (a, b) = ed.selection();
        ed.current_buffer().text().chars().skip(a).take(b - a).collect::<String>()
    };

    assert_eq!(at(0, 'e'), "他抬頭看了看那片天", "a whole run of 漢字 is one word");
    assert_eq!(at(8, 'e'), "，", "standing on a word's last cell, take the next");
    assert_eq!(at(17, 'e'), "。「", "a run of punctuation is a word too");
    assert_eq!(at(23, 'e'), "他說", "…and it does not drag 」 along");
    assert_eq!(at(25, 'e'), " OK", "the space in front comes with the word");
    assert_eq!(at(27, 'e'), "OK", "…but not when the caret is already inside it");
    assert_eq!(at(28, 'e'), " 了");

    assert_eq!(at(8, 'w'), "，");
    assert_eq!(at(23, 'w'), "他");
    assert_eq!(at(26, 'w'), "OK ", "and `w` keeps the trailing space");

    let pair = |n: usize| {
        let mut ed = typed(text);
        for _ in 0..n {
            ed.on_key(Key::Char('l'));
        }
        ed.on_key(Key::Char('e'));
        ed.on_key(Key::Char('b'));
        let (a, b) = ed.selection();
        ed.current_buffer().text().chars().skip(a).take(b - a).collect::<String>()
    };
    assert_eq!(pair(0), "他抬頭看了看那片天");
    assert_eq!(pair(12), "山路已經看不見了", "from the middle of a clause too");
    assert_eq!(pair(20), "走吧", "quoted, so the marks bound it");
}

#[test]
fn the_end_of_a_line_is_its_last_character_not_the_break() {
    for end_key in [vec![Key::Char('g'), Key::Char('l')], vec![Key::End]] {
        let press = |ed: &mut Editor| {
            for key in &end_key {
                ed.on_key(*key);
            }
        };

        let mut ed = typed("AAAAA\nBBBBB\n");
        press(&mut ed);
        assert_eq!(ed.selection(), (4, 5), "on the last A, not on the newline");

        ed.on_key(Key::Char('a'));
        for c in "XXX".chars() {
            ed.on_key(Key::Char(c));
        }
        ed.on_key(Key::Esc);
        assert_eq!(ed.current_buffer().text(), "AAAAAXXX\nBBBBB\n");

        let mut ed = typed("AAAAA\nBBBBB\n");
        press(&mut ed);
        ed.on_key(Key::Char('d'));
        assert_eq!(ed.current_buffer().text(), "AAAA\nBBBBB\n", "the break stays");

        let mut ed = typed("那年\n");
        press(&mut ed);
        assert_eq!(ed.selection(), (1, 2), "on 年");

        let mut ed = typed("\nBBB\n");
        let before = ed.selection();
        press(&mut ed);
        assert_eq!(ed.selection(), before, "nothing to stand on, so stand still");

        let mut ed = typed("AAA\nBB");
        ed.on_key(Key::Char('j'));
        press(&mut ed);
        assert_eq!(ed.selection(), (5, 6), "on the second B");
    }
}

#[test]
fn a_search_guesses_the_last_pattern() {
    let mut ed = typed("春江潮水連海平，海上明月共潮生");
    ed.on_key(Key::Char('/'));
    for c in "潮水".chars() {
        ed.on_key(Key::Char(c));
    }
    ed.on_key(Key::Enter);

    ed.on_key(Key::Char('/'));
    assert_eq!(ed.prompt_ghost(), "潮水", "the whole of the last pattern");
    ed.on_key(Key::Esc);

    ed.on_key(Key::Char('/'));
    ed.on_key(Key::Char('潮'));
    assert_eq!(ed.prompt_ghost(), "水");
    ed.on_key(Key::Tab);
    assert_eq!(ed.prompt(), line_of("/", "潮水"));
    ed.on_key(Key::Enter);
    assert_eq!(ed.selection(), (2, 4), "and it runs");

    ed.on_key(Key::Char('/'));
    ed.on_key(Key::Char('海'));
    assert_eq!(ed.prompt_ghost(), "");
    ed.on_key(Key::Backspace);
    assert_eq!(ed.prompt_ghost(), "潮水");
    ed.on_key(Key::Enter);
    assert_eq!(ed.selection(), (2, 4), "round to the only 潮水 there is");
}

#[test]
fn alt_semicolon_flips_which_end_the_cursor_is_on() {
    let mut ed = typed("一二三四五");
    press(&mut ed, "gglvll");
    let (start, end) = ed.selection();
    assert_eq!((start, end), (1, 4));
    assert_eq!(ed.cursor(), 3, "the cursor is on the selection's last 字");
    ed.on_key(Key::Alt(';'));
    assert_eq!(ed.selection(), (start, end), "the range is unchanged");
    assert_eq!(ed.cursor(), start, "but the cursor is at the other end");
    press(&mut ed, "h");
    assert_eq!(ed.selection().0, start - 1);
}

#[test]
fn a_page_motion_moves_by_what_is_on_screen() {
    let text = (0..100).map(|_| "字").collect::<Vec<_>>().join("\n");
    let mut ed = typed(&text);
    ed.set_page(20, 10);
    press(&mut ed, "gg");
    ed.on_key(Key::Ctrl('d'));
    assert_eq!(ed.cursor_line(), 10, "half of twenty lines");
    ed.on_key(Key::Ctrl('f'));
    assert_eq!(ed.cursor_line(), 30, "a whole page");
    ed.on_key(Key::Ctrl('u'));
    assert_eq!(ed.cursor_line(), 20);
    ed.on_key(Key::Ctrl('f'));
    ed.on_key(Key::Ctrl('f'));
    ed.on_key(Key::Ctrl('f'));
    ed.on_key(Key::Ctrl('f'));
    assert_eq!(ed.cursor_line(), 99);
}

#[test]
fn a_count_prefix_repeats_a_motion() {
    let mut ed = typed("一二三四五六七八");
    press(&mut ed, "3l");
    assert_eq!(ed.cursor(), 3);
    press(&mut ed, "2h");
    assert_eq!(ed.cursor(), 1);
    assert_eq!(ed.pending_count(), None);
    press(&mut ed, "999l");
    assert_eq!(ed.cursor(), 8);
}

#[test]
fn a_leading_zero_is_not_a_count() {
    let mut ed = typed("一二三");
    press(&mut ed, "0");
    assert_eq!(ed.pending_count(), None, "0 alone must not start a count");
    press(&mut ed, "1");
    press(&mut ed, "0");
    assert_eq!(ed.pending_count(), Some(10));
}

#[test]
fn match_mode_jumps_between_cjk_brackets() {
    let mut ed = typed("他說「你好」。");
    press(&mut ed, "2l");
    assert_eq!(ed.cursor(), 2);
    press(&mut ed, "mm");
    assert_eq!(ed.cursor(), 5, "should land on 」");
    press(&mut ed, "mm");
    assert_eq!(ed.cursor(), 2, "and back again");
}

#[test]
fn match_mode_selects_inside_and_around_a_pair() {
    let mut ed = typed("他說「你好」。");
    press(&mut ed, "3l");
    press(&mut ed, "mi「");
    assert_eq!(ed.selection(), (3, 5));
    press(&mut ed, "ma「");
    assert_eq!(ed.selection(), (2, 6));
    press(&mut ed, "gg3l");
    press(&mut ed, "mi」");
    assert_eq!(ed.selection(), (3, 5));
}

#[test]
fn nested_pairs_match_the_innermost() {
    let mut ed = typed("（甲（乙）丙）");
    press(&mut ed, "3l");
    press(&mut ed, "mi（");
    assert_eq!(ed.selection(), (3, 4), "the inner pair, not the outer");
}

#[test]
fn alt_dot_repeats_the_last_find() {
    let mut ed = typed("a,b,c,d");
    press(&mut ed, "f,");
    assert_eq!(ed.cursor(), 1);
    ed.on_key(Key::Alt('.'));
    assert_eq!(ed.cursor(), 3);
    ed.on_key(Key::Alt('.'));
    assert_eq!(ed.cursor(), 5);
}

#[test]
fn extend_to_line_bounds_covers_whole_lines() {
    let mut ed = typed("一二三\n四五六");
    press(&mut ed, "lv");
    press(&mut ed, "j");
    press(&mut ed, "X");
    assert_eq!(ed.selection(), (0, 7));
}

#[test]
fn the_capitals_turn_the_page() {
    let text = (1..=60)
        .map(|n| n.to_string())
        .collect::<Vec<_>>()
        .join("\n");
    let mut ed = typed(&text);
    ed.set_page(20, 10);
    press(&mut ed, "gg");

    press(&mut ed, "J");
    assert_eq!(ed.cursor_line(), 10, "half of twenty lines");
    press(&mut ed, "J");
    assert_eq!(ed.cursor_line(), 20);
    press(&mut ed, "K");
    assert_eq!(ed.cursor_line(), 10);

    let mut ed = typed("上山\n下海");
    press(&mut ed, "gJ");
    assert_eq!(ed.current_buffer().text(), "上山下海");
}

#[test]
fn the_keys_a_keyboard_has_are_not_swallowed() {
    let mut ed = typed(&"一行\n".repeat(200));
    ed.set_page(20, 80);
    ed.execute("1").unwrap();
    ed.on_key(Key::PageDown);
    assert!(ed.cursor_line() > 10, "a page down: {}", ed.cursor_line());
    let down = ed.cursor_line();
    ed.on_key(Key::PageUp);
    assert!(ed.cursor_line() < down, "and a page back");

    ed.on_key(Key::Char('i'));
    let was = ed.cursor_line();
    ed.on_key(Key::PageDown);
    assert!(ed.cursor_line() > was, "a page down while typing");
    assert_eq!(ed.mode(), Mode::Insert, "and still typing");
    ed.on_key(Key::Char('甲'));
    ed.on_key(Key::Ctrl('a'));
    assert_eq!(
        ed.cursor(),
        yumete_core::motion::line_start(ed.current_buffer().rope(), ed.cursor()),
        "C-a is the line's start, as it is on the `:` line"
    );
    ed.on_key(Key::Ctrl('e'));
    assert_eq!(
        ed.cursor(),
        yumete_core::motion::line_end(ed.current_buffer().rope(), ed.cursor())
    );
}

#[test]
fn normal_motions_move_the_cursor() {
    let mut ed = Editor::new();
    ed.on_key(Key::Char('i'));
    type_keys(&mut ed, "中x\nabc");
    ed.on_key(Key::Esc);

    ed.on_key(Key::Char('g'));
    ed.on_key(Key::Char('g'));
    assert_eq!(ed.cursor(), 0);

    ed.on_key(Key::Char('l'));
    assert_eq!(ed.cursor(), 1);
    assert_eq!(ed.cursor_visual_column(), 2);

    ed.on_key(Key::Char('j'));
    assert_eq!(ed.cursor_line(), 1);
    assert_eq!(ed.cursor_visual_column(), 2);

    ed.on_key(Key::Char('g'));
    ed.on_key(Key::Char('h'));
    assert_eq!(ed.cursor(), 3);
    ed.on_key(Key::Char('g'));
    ed.on_key(Key::Char('l'));
    assert_eq!(ed.cursor(), 5);

    ed.on_key(Key::Char('g'));
    ed.on_key(Key::Char('e'));
    assert_eq!(ed.cursor_line(), 1);
}

#[test]
fn find_char_moves_and_selects_within_the_line() {
    let mut ed = Editor::new();
    ed.on_key(Key::Char('i'));
    type_keys(&mut ed, "hello world");
    ed.on_key(Key::Esc);
    ed.on_key(Key::Char('g'));
    ed.on_key(Key::Char('g'));

    ed.on_key(Key::Char('f'));
    ed.on_key(Key::Char('w'));
    assert_eq!(ed.cursor(), 6);
    assert_eq!(ed.selection(), (0, 7));

    let was = ed.cursor();
    ed.on_key(Key::Char('f'));
    ed.on_key(Key::Char('z'));
    assert_eq!(ed.cursor(), was);
    assert!(!ed.status().is_empty());
}

#[test]
fn extend_mode_keeps_the_anchor_while_moving() {
    let mut ed = Editor::new();
    ed.on_key(Key::Char('i'));
    type_keys(&mut ed, "abcdef");
    ed.on_key(Key::Esc);
    ed.on_key(Key::Char('g'));
    ed.on_key(Key::Char('g'));

    ed.on_key(Key::Char('v'));
    assert!(ed.is_extending());
    ed.on_key(Key::Char('l'));
    ed.on_key(Key::Char('l'));
    assert_eq!(ed.selection(), (0, 3));

    ed.on_key(Key::Char('d'));
    assert_eq!(ed.current_buffer().text(), "def");
    assert!(!ed.is_extending());
}

#[test]
fn esc_leaves_select_mode() {
    let mut ed = typed("abc");
    ed.on_key(Key::Char('v'));
    assert!(ed.is_extending());
    ed.on_key(Key::Esc);
    assert!(!ed.is_extending(), "Esc is every modal editor's way out");
}

#[test]
fn a_count_before_f_finds_the_nth_occurrence() {
    let mut ed = Editor::new();
    ed.current_buffer_mut().insert(0, "a.b.c.d").expect("the buffer is not locked");
    type_keys(&mut ed, "3f.");
    assert_eq!(ed.cursor(), 5);
    type_keys(&mut ed, "gg");
    type_keys(&mut ed, "f.");
    assert_eq!(ed.cursor(), 1);
}

#[test]
fn a_count_before_gg_is_a_line_number() {
    let mut ed = Editor::new();
    ed.current_buffer_mut().insert(0, "一\n二\n  三\n四\n")
        .expect("the buffer is not locked");
    type_keys(&mut ed, "3gg");
    assert_eq!(ed.cursor_line(), 2);
    assert_eq!(ed.cursor(), 6);
    type_keys(&mut ed, "gg");
    assert_eq!(ed.cursor(), 0);
    type_keys(&mut ed, "99gg");
    assert_eq!(ed.cursor_line(), 3);
}

#[test]
fn a_bare_number_on_the_command_line_is_a_line_number() {
    let mut ed = Editor::new();
    ed.current_buffer_mut().insert(0, "一\n二\n三\n").expect("the buffer is not locked");
    ed.execute(":2").unwrap();
    assert_eq!(ed.cursor_line(), 1);
    ed.execute(":goto 3").unwrap();
    assert_eq!(ed.cursor_line(), 2);
}

#[test]
fn search_moves_the_cursor_to_the_match_and_wraps() {
    let mut ed = Editor::new();
    ed.on_key(Key::Char('i'));
    type_keys(&mut ed, "one two one");
    ed.on_key(Key::Esc);
    ed.on_key(Key::Char('g'));
    ed.on_key(Key::Char('g'));

    ed.on_key(Key::Char('/'));
    type_keys(&mut ed, "two");
    ed.on_key(Key::Enter);
    assert_eq!(ed.selection(), (4, 7));

    ed.on_key(Key::Char('/'));
    type_keys(&mut ed, "one");
    ed.on_key(Key::Enter);
    assert_eq!(ed.selection(), (8, 11));

    ed.on_key(Key::Char('n'));
    assert_eq!(ed.selection(), (0, 3));

    ed.on_key(Key::Char('d'));
    assert_eq!(ed.current_buffer().text(), " two one");
}

#[test]
fn patterns_are_regular_expressions() {
    let mut ed = typed("他說。她說。他問。");
    ed.execute(":%s/[他她]說/X/g").unwrap();
    assert_eq!(ed.current_buffer().text(), "X。X。他問。");

    let mut ed = typed("甲。乙。丙。");
    ed.execute(r":%s/。/。\n/g").unwrap();
    assert_eq!(ed.current_buffer().text(), "甲。\n乙。\n丙。\n");

    let mut ed = typed("阿寧說道：好。");
    ed.execute(r":%s/(.+)說道/$1說/").unwrap();
    assert_eq!(ed.current_buffer().text(), "阿寧說：好。");

    let mut ed = typed("甲乙丙");
    ed.execute(":%s/[未閉合/X/").unwrap();
    assert!(ed.status().starts_with("bad pattern"), "{}", ed.status());
    assert_eq!(ed.current_buffer().text(), "甲乙丙");
}

#[test]
fn n_with_no_search_behind_it_says_so() {
    let mut ed = typed("那年冬天。\n");
    ed.on_key(Key::Char('n'));
    assert!(
        ed.status().contains("還沒有搜索過") || ed.status().contains("searched"),
        "{}",
        ed.status()
    );
}

#[test]
fn stepping_sideways_crosses_the_line_break() {
    let mut ed = typed("甲乙\n丙丁\n");
    let line = |e: &Editor| {
        let rope = e.current_buffer().rope();
        rope.char_to_line(e.cursor)
    };
    assert_eq!(line(&ed), 0);
    for _ in 0..3 {
        ed.on_key(Key::Char('l'));
    }
    assert_eq!(line(&ed), 1, "three steps off a two-character line");
    assert_eq!(ed.cursor, ed.current_buffer().rope().line_to_char(1));

    ed.on_key(Key::Char('h'));
    assert_eq!(line(&ed), 0, "and back over the break");
    for _ in 0..3 {
        ed.on_key(Key::Char('h'));
    }
    assert_eq!(ed.cursor, 0, "the top of the file is where it stops");
}

#[test]
fn a_lone_carriage_return_does_not_start_a_line() {
    let mut ed = Editor::new();
    ed.current_buffer_mut().replace(0, 0, "CR\rhere\nsecond\n").expect("the buffer is not locked");
    assert_eq!(
        ed.current_buffer().line_count(),
        3,
        "two lines and the empty one after the last break, as `wc -l` counts"
    );
    let first: String = ed.current_buffer().rope().line(0).chars().collect();
    assert!(first.starts_with("CR\rhere"), "{first:?}");

    let mut ed = Editor::new();
    ed.current_buffer_mut().replace(0, 0, "a\u{b}b\u{c}c\u{85}d\u{2028}e\u{2029}f\n").expect("the buffer is not locked");
    assert_eq!(ed.current_buffer().line_count(), 2, "one line, and the end");

    let mut ed = Editor::new();
    ed.current_buffer_mut().replace(0, 0, "one\r\ntwo\r\n").expect("the buffer is not locked");
    assert_eq!(ed.current_buffer().line_count(), 3);
    let first: String = ed.current_buffer().rope().line(0).chars().collect();
    assert_eq!(first, "one\r\n", "and the pair is the break, not two");
}

#[test]
fn an_unbound_key_says_what_this_editor_calls_it() {
    let mut ed = typed("一行字\n");
    ed.goto_line(1);
    let before = ed.current_buffer().text();
    for (key, want) in [('$', "gl"), ('^', "gs"), ('@', "Q")] {
        ed.on_key(Key::Char(key));
        assert!(ed.status().contains(want), "{key}: {}", ed.status());
        assert_eq!(ed.current_buffer().text(), before, "and it never does it");
    }
    ed.on_key(Key::Char('x'));
    assert!(!ed.status().contains("gl"));
}

#[test]
fn the_retired_keys_say_what_replaced_them() {
    let mut ed = typed("那年冬天。\n");
    ed.on_key(Key::Enter);
    assert!(ed.status().is_empty(), "{}", ed.status());

    let mut ed = typed("那年冬天。\n");
    press(&mut ed, "gw");
    assert!(ed.status().contains("gD"), "{}", ed.status());
}

#[test]
fn the_phrasebook_answers_the_keys_we_spell_differently() {
    let ask = |key: Key| {
        let mut ed = typed("那年冬天。\n");
        ed.on_key(key);
        assert_eq!(ed.current_buffer().text(), "那年冬天。\n", "{}", ed.status());
        assert_eq!(ed.mode(), Mode::Normal, "{}", ed.status());
        ed.status().to_string()
    };
    assert!(ask(Key::Ctrl('r')).contains('U'), "{}", ask(Key::Ctrl('r')));
    assert!(ask(Key::Ctrl('c')).contains("空格 c"), "{}", ask(Key::Ctrl('c')));
    for key in ['(', ')'] {
        let said = ask(Key::Char(key));
        assert!(said.contains('H') && said.contains('L'), "{key}: {said}");
    }
    assert!(ask(Key::Char('0')).contains("gh"), "{}", ask(Key::Char('0')));
    let mut ed = typed("那年冬天。\n");
    press(&mut ed, "gg20l");
    assert!(ed.status().is_empty(), "a count swallows it: {}", ed.status());
}
