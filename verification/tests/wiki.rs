//! The wiki of a book.

use yumete_core::article::{WikiLine, WikiPart, WikiView};
use yumete_core::buffer::{Buffer, LineReading};
use yumete_core::editor::{Editor, Key, Page, Side};
use yumete_core::path::FilePath;
use yumete_core::wiki::{Entry, Mark, Source, Wiki};
use yumete_core::wiki_command::WikiStep;

/// The path that `s` names.
fn path(s: &str) -> FilePath {
    FilePath::new(s)
}

/// An entry of the book's own wiki, or of the global one.
fn entry(depth: usize, ancestors: &[&str], body: &[&str], global: bool) -> Entry {
    Entry {
        depth,
        ancestors: ancestors.iter().map(|s| s.to_string()).collect(),
        body: body.iter().map(|s| s.to_string()).collect(),
        source: path(if global { "/data/wiki.md" } else { "/book/.yumete/wiki.md" }),
        line: 10,
        global,
    }
}

/// A wiki with one entry called 真境, and one called 墨.
fn small_wiki() -> Wiki {
    Wiki {
        entries: vec![
            entry(2, &["辭典"], &["第一行", "### 來歷", "", "第二行"], false),
            entry(1, &[], &["一種墨"], false),
        ],
        by_name: vec![("真境".to_string(), vec![0]), ("墨".to_string(), vec![1])],
        sources: vec![Source::Read { path: path("/book/.yumete/wiki.md"), entries: 2 }],
    }
}

/// A chapter that holds `text`, whose lines are cut into the words `cuts`.
fn chapter(text: &str, cuts: &[&[(usize, usize)]]) -> Editor {
    let mut ed = Editor::new();
    ed.add_buffer(Buffer::read_from(path("/book/one.md"), text));
    let reading = cuts.iter().map(|line| LineReading { cuts: line.to_vec() }).collect();
    assert!(ed.take_reading(reading));
    assert!(ed.take_wiki(small_wiki()));
    ed.places.root = path("/book");
    ed
}

#[test]
fn the_entry_under_the_cursor_is_laid_out() {
    let mut ed = chapter("那年真境開了\n", &[&[(0, 2), (2, 4), (4, 5), (5, 6)]]);
    assert!(ed.wiki_here().is_none(), "那年 is no name");
    ed.set_cursor(3);
    let view = ed.wiki_here().expect("an entry");
    assert_eq!(view.name, "真境");
    assert_eq!(view.parts.len(), 1);
    assert_eq!(
        view.parts[0].lines,
        vec![
            WikiLine::Text("第一行"),
            WikiLine::Heading(2, "來歷"),
            WikiLine::Text(""),
            WikiLine::Text("第二行"),
        ]
    );
    assert_eq!(view.lede().as_deref(), Some("辭典"));
    assert_eq!(view.as_prose(), "辭典\n第一行\n## 來歷\n\n第二行");
    assert_eq!(view.body_prose(usize::MAX), "第一行\n## 來歷\n\n第二行");
    assert_eq!(view.body_prose(1), "第一行");
    assert_eq!(view.body_prose(2), "第一行\n## 來歷");
    assert_eq!(view.body_prose(0), "");
    assert_eq!(ed.wiki_target(), Some((path("/book/.yumete/wiki.md"), 10)));
}

#[test]
fn what_does_not_hold_together_is_not_taken() {
    let mut ed = chapter("甲乙\n", &[&[(0, 2)]]);
    let mut twice = small_wiki();
    twice.by_name.push(("真境".to_string(), vec![1]));
    assert!(!twice.is_sound());
    assert!(!ed.take_wiki(twice), "a name stands twice");
    let mut nowhere = small_wiki();
    nowhere.by_name[0].1.push(7);
    assert!(!ed.take_wiki(nowhere), "an entry is not there");
    for cuts in [vec![(2, 1)], vec![(3, 4)]] {
        assert!(!ed.take_reading(vec![LineReading { cuts }]), "no word of the line");
    }
    let line = || LineReading { cuts: Vec::new() };
    assert!(!ed.take_reading(vec![line(), line(), line()]), "more lines than there are");
    assert_eq!(ed.segment_line(0), vec![(0, 2)], "what there was is left");
}

#[test]
fn a_part_of_a_longer_word_is_not_the_name() {
    let mut ed = chapter("真境界\n", &[&[(0, 3)]]);
    ed.set_cursor(1);
    assert!(ed.wiki_here().is_none());
    assert!(ed.wiki_marks_on_line(0).is_empty());
    assert_eq!(ed.wiki_target(), None);
}

#[test]
fn one_character_is_never_answered() {
    let ed = chapter("墨\n", &[&[(0, 1)]]);
    assert!(ed.wiki_here().is_none());
    assert!(ed.wiki_marks_on_line(0).is_empty());
}

#[test]
fn nothing_is_answered_while_typing_or_in_a_fence_or_in_a_comment() {
    let mut ed = chapter("真境\n", &[&[(0, 2)]]);
    assert!(ed.wiki_here().is_some());
    ed.on_key(Key::Char('i'));
    assert!(ed.wiki_here().is_none(), "typing");

    for text in ["```\n真境\n```\n", "<!--\n真境\n-->\n"] {
        let mut ed = chapter(text, &[&[], &[(0, 2)], &[]]);
        ed.set_cursor(text.chars().position(|c| c == '真').unwrap());
        assert!(ed.wiki_here().is_none(), "{text}");
        assert!(ed.wiki_marks_on_line(1).is_empty(), "{text}");
    }
}

#[test]
fn names_are_marked_where_they_were_cut_out() {
    let mut ed = chapter("那年真境開了真境\n", &[&[(0, 2), (2, 4), (4, 6), (6, 8)]]);
    assert_eq!(ed.wiki_mark(), Mark::Color);
    assert!(ed.wiki_marks_visible());
    assert_eq!(ed.wiki_marks_on_line(0), vec![(2, 4), (6, 8)]);
    ed.execute("render off").unwrap();
    assert!(ed.wiki_marks_on_line(0).is_empty(), "the file as it is");
    ed.execute("render basic").unwrap();
    ed.wiki_command(Some("hide"));
    assert_eq!(ed.wiki_mark(), Mark::Off);
    assert!(!ed.wiki_marks_visible());
    assert!(ed.wiki_marks_on_line(0).is_empty());
    ed.wiki_command(Some("line"));
    assert_eq!(ed.wiki_mark(), Mark::Line);
    assert_eq!(ed.wiki_marks_on_line(0).len(), 2);
}

#[test]
fn entries_of_one_name_stand_one_after_the_other() {
    let trail = vec!["卷一".to_string()];
    let none: Vec<String> = Vec::new();
    let source = path("/book/.yumete/wiki.md");
    let view = WikiView {
        name: "真境".to_string(),
        parts: vec![
            WikiPart {
                global: false,
                trail: &trail,
                lines: vec![WikiLine::Text("甲")],
                source: &source,
                line: 1,
            },
            WikiPart {
                global: false,
                trail: &none,
                lines: vec![WikiLine::Text("乙")],
                source: &source,
                line: 2,
            },
            WikiPart {
                global: true,
                trail: &none,
                lines: vec![WikiLine::Text("丙")],
                source: &source,
                line: 3,
            },
        ],
    };
    assert_eq!(view.lede(), None, "several entries keep their own headings");
    assert_eq!(view.as_prose(), "卷一\n甲\n\n──\n乙\n\n── 全局 ──\n丙");
    assert_eq!(view.body_prose(1), "卷一\n甲\n\n──\n\n── 全局 ──");
    assert_eq!(view.body_prose(0), "卷一\n\n──\n\n── 全局 ──");
    assert_eq!(view.body_prose(2), "卷一\n甲\n\n──\n乙\n\n── 全局 ──");
    assert!(view.as_prose().starts_with(&view.body_prose(2)), "a cut is a beginning");
}

#[test]
fn what_stands_above_a_body_is_never_cut() {
    let trail = vec!["卷".to_string()];
    let none: Vec<String> = Vec::new();
    let source = path("w");
    let part = |trail, lines, line| WikiPart { global: false, trail, lines, source: &source, line };
    let view = WikiView {
        name: "甲".to_string(),
        parts: vec![
            part(&none, vec![WikiLine::Text("甲"), WikiLine::Text("乙")], 0),
            part(&trail, vec![WikiLine::Text("丙")], 3),
        ],
    };
    assert_eq!(view.body_prose(1), "甲\n\n──\n卷");
    assert_eq!(view.body_prose(2), "甲\n乙\n\n──\n卷");
    assert_eq!(view.body_prose(3), "甲\n乙\n\n──\n卷\n丙");
    assert_eq!(view.as_prose(), view.body_prose(3), "no more than there is");
}

#[test]
fn the_book_comes_before_the_rest_and_the_less_deep_first() {
    let wiki = |order: &[usize]| Wiki {
        entries: vec![
            entry(2, &[], &["書一"], false),
            entry(3, &[], &["書二"], false),
            entry(1, &[], &["全局"], true),
        ],
        by_name: vec![("真境".to_string(), order.to_vec())],
        sources: Vec::new(),
    };
    let mut ed = chapter("真境\n", &[&[(0, 2)]]);
    assert!(!ed.take_wiki(wiki(&[2, 0, 1])), "the global one first");
    assert!(!ed.take_wiki(wiki(&[1, 0, 2])), "the deeper one first");
    let mut alike = wiki(&[1, 0, 2]);
    alike.entries[1].depth = 2;
    assert!(!ed.take_wiki(alike), "the one that was read later first");
    assert!(ed.take_wiki(wiki(&[0, 1, 2])));
    let view = ed.wiki_here().expect("entries");
    assert_eq!(view.as_prose(), "書一\n\n──\n書二\n\n── 全局 ──\n全局");
}

#[test]
fn the_floating_panel_gives_way() {
    let mut ed = chapter("真境\n", &[&[(0, 2)]]);
    assert!(ed.wiki_floating().is_some());
    ed.detail = Some("a note".to_string());
    assert!(ed.wiki_floating().is_none(), "to what the cursor explains itself by");
    ed.detail = None;
    ed.wiki_command(Some("panel"));
    assert_eq!(ed.showing(Page::Wiki), Some(Side::Left));
    assert!(ed.wiki_floating().is_none(), "to the panel");
    ed.wiki_command(Some("panel"));
    assert_eq!(ed.showing(Page::Wiki), None);
    assert!(ed.wiki_floating().is_some());
}

#[test]
fn the_names_that_are_not_marked_are_found() {
    let ed = chapter(
        "真境在此\n說真境界真境界\n沒有\n```\n真境\n```\n真境\n",
        &[&[(0, 2), (2, 4)], &[(0, 1), (1, 4), (4, 7)], &[(0, 2)], &[], &[(0, 2)], &[], &[]],
    );
    assert_eq!(ed.wiki_missed_here(), vec![("真境".to_string(), vec![2, 2, 7])]);
}

#[test]
fn six_lines_are_enough_to_say_that_there_are_more() {
    let ed = chapter(&"真境界\n".repeat(9), &[]);
    assert_eq!(ed.wiki_missed_here(), vec![("真境".to_string(), vec![1, 2, 3, 4, 5, 6])]);
    let report = ed.wiki_report_text(&path("/book/.yumete/wiki.md"));
    assert!(report.contains("真境：第 1、2、3、4、5… 行"), "{report}");
}

#[test]
fn missed_names_come_in_their_order() {
    let mut ed = chapter("乙乙甲甲丙丙\n", &[]);
    ed.wiki.by_name = vec![
        ("乙乙".to_string(), vec![0]),
        ("丙丙".to_string(), vec![0]),
        ("甲甲".to_string(), vec![0]),
    ];
    let names: Vec<String> = ed.wiki_missed_here().into_iter().map(|(name, _)| name).collect();
    let mut sorted = names.clone();
    sorted.sort();
    assert_eq!(names, sorted);
    assert_eq!(names.len(), 3);
}

#[test]
fn only_a_chapter_misses_names() {
    let mut ed = chapter("真境界\n", &[]);
    ed.current_buffer_mut().path = None;
    assert!(ed.wiki_missed_here().is_empty(), "a listing is no chapter");
    ed.current_buffer_mut().path = Some(path("/book/.yumete/wiki.md"));
    assert!(ed.wiki_missed_here().is_empty(), "nor is the wiki");
}

#[test]
fn the_report_says_what_became_of_every_file() {
    let mut ed = chapter("真境界\n", &[]);
    ed.wiki.sources = vec![
        Source::Read { path: path("/book/.yumete/wiki.md"), entries: 2 },
        Source::Missing { path: path("/book/.yumete/a.md") },
        Source::Unreadable { path: path("/else/b.md"), why: "權限".to_string() },
        Source::Refused { named: "/etc/c".to_string(), from: path("/book/.yumete/wiki.md") },
        Source::Again { path: path("/book/.yumete/wiki.md") },
        Source::TooMany { named: "d.md".to_string() },
    ];
    assert_eq!(
        ed.wiki_report_text(&path("/book/.yumete/wiki.md")),
        "# 作品百科\n\n\
         - .yumete/wiki.md：2 條\n\
         - .yumete/a.md：沒有這個檔案\n\
         - /else/b.md：讀不了（權限）\n\
         - /etc/c：不在這本書裏，不讀（.yumete/wiki.md 寫的）\n\
         - .yumete/wiki.md：已經讀過\n\
         - d.md：檔案太多，沒有讀\n\
         \n## 太短，標不出來\n\n- 墨\n\
         \n## 這個檔案裏有、卻沒有標出來的\n\n- 真境：第 1 行\n"
    );
    let count = ed.buffer_count();
    ed.wiki_report(&path("/book/.yumete/wiki.md"));
    assert_eq!(ed.buffer_count(), count + 1, "a listing of its own");
    assert!(ed.current_buffer().text().starts_with("# 作品百科"));
    assert_eq!(ed.status(), "作品百科");
}

#[test]
fn a_book_without_a_wiki_is_told_where_to_write_one() {
    let mut ed = chapter("甲\n", &[]);
    ed.wiki = Wiki::new();
    assert_eq!(
        ed.wiki_report_text(&path("/book/.yumete/wiki.md")),
        "# 作品百科\n\n還沒有百科，寫在 .yumete/wiki.md 裏就有了\n"
    );
}

#[test]
fn the_command_says_what_is_left_to_do() {
    let mut ed = chapter("甲\n", &[]);
    assert!(matches!(ed.wiki_command(None), WikiStep::Report));
    assert!(matches!(ed.wiki_command(Some("edit")), WikiStep::EditBook));
    assert!(matches!(ed.wiki_command(Some("reload")), WikiStep::Reload));
    assert!(matches!(ed.wiki_command(Some("color")), WikiStep::Done));
    assert_eq!(ed.status(), "百科名字用顏色標出");
    assert!(matches!(ed.wiki_command(Some("global")), WikiStep::Done));
    assert_eq!(ed.status(), "沒有存放數據的目錄");
    ed.places.data_dir = Some(path("/data"));
    match ed.wiki_command(Some("global")) {
        WikiStep::Open(p) => assert_eq!(p.show(), "/data/wiki.md"),
        step => panic!("{step:?}"),
    }
    ed.wiki_reloaded();
    assert_eq!(ed.status(), "百科：2 條，1 個檔案");
}

#[test]
fn the_wiki_of_a_book_is_looked_for_upwards() {
    let mut ed = chapter("甲\n", &[]);
    let cwd = path("/work");
    let dirs: Vec<String> = ed.wiki_directories(&cwd).iter().map(|d| d.show()).collect();
    assert_eq!(dirs, vec!["/book", "/"]);
    let found = |v: &[(bool, bool)], ed: &Editor| ed.book_wiki_path(&cwd, &v.to_vec()).show();
    assert_eq!(found(&[(true, true), (true, true)], &ed), "/book/.yumete/wiki.md");
    assert_eq!(found(&[(false, true), (true, true)], &ed), "/book/.yumete/wiki.txt");
    assert_eq!(found(&[(false, false), (true, false)], &ed), "/.yumete/wiki.md");
    ed.places.root = path("/root");
    assert_eq!(found(&[(false, false), (false, false)], &ed), "/root/.yumete/wiki.md");
    ed.current_buffer_mut().path = None;
    assert_eq!(ed.wiki_directories(&cwd)[0].show(), "/work", "no file: from where one works");
}

#[test]
fn an_opened_wiki_is_read_as_markdown() {
    let mut ed = Editor::new();
    ed.execute("syntax text").unwrap();
    ed.wiki_file_opened(&path("/book/.yumete/wiki.txt"));
    assert_eq!(ed.current_buffer().syntax, yumete_core::buffer::Syntax::Markdown);
    assert_eq!(ed.status(), "/book/.yumete/wiki.txt 是空的，用 ## 名字 開一條");
    let mut ed = chapter("## 真境\n", &[]);
    ed.wiki_file_opened(&path("/book/.yumete/wiki.txt"));
    assert_eq!(ed.status(), "", "a wiki that holds something needs no word");
}

#[test]
fn the_files_of_the_wiki_are_known() {
    let ed = chapter("甲\n", &[]);
    assert!(ed.is_wiki_file(&path("/book/.yumete/wiki.md")), "it was read");
    assert!(ed.is_wiki_file(&path("/other/.yumete/wiki.md")), "it would be");
    assert!(!ed.is_wiki_file(&path("/book/wiki.md")));
    assert!(!ed.is_wiki_file(&path("/book/.yumete/words.txt")));
    assert_eq!(ed.wiki_words(), vec!["真境".to_string(), "墨".to_string()]);
}

#[test]
fn a_directive_names_a_file_of_the_wiki() {
    let mut ed = chapter("# 百科\n<!-- [yumete] 人物.md -->\n%% [yumete] 地名.md %%\n[yumete]\n", &[]);
    assert!(ed.wiki_include_here(&vec![]).is_none(), "a chapter names none");
    ed.current_buffer_mut().path = Some(path("/book/.yumete/wiki.md"));
    assert!(ed.wiki_include_here(&vec![]).is_none(), "the first line names none");
    ed.goto_line(2);
    let here = ed.wiki_include_here(&vec![false]).expect("a directive");
    assert_eq!(here.named, "人物.md");
    assert_eq!(here.path.show(), "/book/.yumete/人物.md");
    assert_eq!(here.state, None, "it was not reached for");
    let here = ed.wiki_include_here(&vec![true]).expect("a directive");
    assert!(matches!(here.state, Some(Source::Read { entries: 2, .. })), "one file under two names");
    ed.goto_line(3);
    assert_eq!(ed.wiki_include_here(&vec![]).expect("a directive").named, "地名.md");
    ed.goto_line(4);
    assert!(ed.wiki_include_here(&vec![]).is_none(), "an empty name is none");
    assert!(ed.wiki_floating().is_none());

    ed.goto_line(2);
    ed.wiki.sources = vec![
        Source::TooMany { named: "地名.md".to_string() },
        Source::Missing { path: path("/book/.yumete/人物.md") },
    ];
    assert!(matches!(
        ed.wiki_include_here(&vec![]).expect("a directive").state,
        Some(Source::Missing { .. })
    ));
    ed.goto_line(3);
    assert!(matches!(
        ed.wiki_include_here(&vec![]).expect("a directive").state,
        Some(Source::TooMany { .. })
    ));
    ed.wiki_include_failed("地名.md", "沒有");
    assert_eq!(ed.status(), "打不開 地名.md：沒有");
}

#[test]
fn a_directive_is_the_first_thing_in_a_comment() {
    let named = |line: &str| {
        let mut ed = chapter(line, &[]);
        ed.current_buffer_mut().path = Some(path("/book/.yumete/wiki.md"));
        ed.wiki_include_here(&vec![]).map(|here| here.named)
    };
    assert_eq!(named("參見 [yumete] 人物.md\n"), None, "in no comment");
    assert_eq!(named("[yumete] 人物.md -->\n"), None, "the comment did not open here");
    assert_eq!(named("<!-- 參見 [yumete] 人物.md -->\n"), None, "not the first thing in it");
    assert_eq!(named("<!-- 註 --> [yumete] 人物.md\n"), None, "behind a comment");
    assert_eq!(named("%% 註 %% [yumete] 人物.md\n"), None, "behind a comment");
    assert_eq!(named("<!--[yumete]人物.md-->\n").as_deref(), Some("人物.md"));
    assert_eq!(named("文 %%　[yumete] 地名.md %%\n").as_deref(), Some("地名.md"));
    assert_eq!(named("<!-- 註 --> <!-- [yumete] 人物.md -->\n").as_deref(), Some("人物.md"));
    assert_eq!(named("<!-- [yumete] -->\n"), None, "no name");
    assert_eq!(named("50%% <!-- [yumete] 人物.md -->\n").as_deref(), Some("人物.md"));
}

#[test]
fn a_directive_may_stand_below_where_its_comment_opens() {
    let named = |text: &str, line: usize| {
        let mut ed = chapter(text, &[]);
        ed.current_buffer_mut().path = Some(path("/book/.yumete/wiki.md"));
        ed.goto_line(line);
        ed.wiki_include_here(&vec![]).map(|here| here.named)
    };
    assert_eq!(named("<!--\n[yumete] a.md\n-->\n", 2).as_deref(), Some("a.md"));
    assert_eq!(named("<!--\n\n  [yumete] a.md -->\n", 3).as_deref(), Some("a.md"));
    assert_eq!(named("文 <!--\n[yumete] a.md\n-->\n", 2).as_deref(), Some("a.md"));
    assert_eq!(named("%%\n[yumete] a.md\n%%\n", 2).as_deref(), Some("a.md"));
    assert_eq!(named("<!-- 註\n[yumete] a.md\n-->\n", 2), None, "not the first thing in it");
    assert_eq!(named("<!--\n註\n-->\n[yumete] a.md\n", 4), None, "behind the comment");
    assert_eq!(named("%%\n註\n%%\n[yumete] a.md\n", 4), None, "behind the comment");
    assert_eq!(
        named("<!--\n註 --> <!-- [yumete] a.md -->\n", 2).as_deref(),
        Some("a.md"),
        "in the next comment"
    );
    assert_eq!(
        named("50%% 了\n%% [yumete] a.md %%\n", 2).as_deref(),
        Some("a.md"),
        "no comment was left open"
    );
}

#[test]
fn a_path_is_shown_as_it_is_written() {
    for s in ["a/./b.md", "/book//a.md", "./a", "a/", "/", "", "..", "a/../b"] {
        assert_eq!(path(s).show(), s);
    }
    assert_eq!(path("/book/./a.md"), path("/book//a.md/"), "the same steps");
    assert_ne!(path("./a"), path("a"));
    assert_ne!(path("/a"), path("a"));
    let up = |s: &str| path(s).parent().map(|p| p.show());
    assert_eq!(up("a/./b").as_deref(), Some("a"));
    assert_eq!(up("a/./b/c").as_deref(), Some("a/./b"));
    assert_eq!(up("//a").as_deref(), Some("/"));
    assert_eq!(up("./a").as_deref(), Some("."));
    assert_eq!(up("a").as_deref(), Some(""));
    assert_eq!(up("/"), None);
    assert_eq!(path("a/b/.").file_name().as_deref(), Some("b"));
    assert_eq!(path("a/..").file_name(), None);
    let join = |a: &str, b: &str| path(a).join(&path(b)).show();
    assert_eq!(join("a/", "b"), "a/b");
    assert_eq!(join("a", "./b"), "a/./b");
    assert_eq!(join("", "b"), "b");
    assert_eq!(join("/", "b"), "/b");
    assert_eq!(join("a", "/b"), "/b");
    assert_eq!(join("a", ""), "a/");
    let under = |a: &str, b: &str| path(a).under(&path(b)).show();
    assert_eq!(under("/book/.yumete/./a.md", "/book"), ".yumete/./a.md");
    assert_eq!(under("/book/./a.md/", "/book/"), "a.md");
    assert_eq!(under("/other/a/", "/book"), "/other/a/");
    assert_eq!(under("/book", "/book"), "");
}

#[test]
fn what_is_missed_is_missed_however_names_are_marked() {
    let mut ed = chapter("真境界\n說真境界\n", &[&[(0, 3)], &[(0, 1), (1, 4)]]);
    let missed = vec![("真境".to_string(), vec![1, 2])];
    for mark in ["color", "line", "hide"] {
        ed.wiki_command(Some(mark));
        assert_eq!(ed.wiki_missed_here(), missed, "{mark}");
    }
}
