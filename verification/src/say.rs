//! What the status line says.

use vstd::prelude::*;
use crate::number::{decimal, decimal_of};
use crate::text::copied;

verus! {

/// Said when a locked buffer refuses an edit.
pub open spec fn readonly_text() -> Seq<char> {
    "這個檔案是只讀的"@
}

/// Said when a locked buffer refuses an edit.
pub fn readonly() -> (said: String)
    ensures
        said@ == readonly_text(),
{
    copied("這個檔案是只讀的")
}

/// Said when there is nothing left to undo.
pub open spec fn undo_at_oldest_text() -> Seq<char> {
    "已經是最早的改動"@
}

/// Said when there is nothing left to undo.
pub fn undo_at_oldest() -> (said: String)
    ensures
        said@ == undo_at_oldest_text(),
{
    copied("已經是最早的改動")
}

/// Said when there is nothing left to redo.
pub open spec fn redo_at_newest_text() -> Seq<char> {
    "已經是最新的改動"@
}

/// Said when there is nothing left to redo.
pub fn redo_at_newest() -> (said: String)
    ensures
        said@ == redo_at_newest_text(),
{
    copied("已經是最新的改動")
}

/// Said when a count that writes was cut down to `n`.
pub open spec fn writing_ceiling_text(n: nat) -> Seq<char> {
    "一次最多寫 "@ + decimal(n) + " 遍"@
}

/// Said when a count that writes was cut down to `n`.
pub fn writing_ceiling(n: usize) -> (said: String)
    ensures
        said@ == writing_ceiling_text(n as nat),
{
    let mut said: String = copied("一次最多寫 ");
    said.push_str(decimal_of(n as u64).as_str());
    said.push_str(" 遍");
    assert(said@ =~= writing_ceiling_text(n as nat));
    said
}

/// Said when the register `name` holds nothing.
pub open spec fn register_empty_text(name: char) -> Seq<char> {
    "寄存器 "@ + seq![name] + " 是空的"@
}

/// Said when the register `name` holds nothing.
pub fn register_empty(name: char) -> (said: String)
    ensures
        said@ == register_empty_text(name),
{
    let mut said: String = copied("寄存器 ");
    said.push(name);
    said.push_str(" 是空的");
    assert(said@ =~= register_empty_text(name));
    said
}

/// Said when nothing has been taken yet.
pub open spec fn nothing_yanked_text() -> Seq<char> {
    "還沒有複製過東西"@
}

/// Said when nothing has been taken yet.
pub fn nothing_yanked() -> (said: String)
    ensures
        said@ == nothing_yanked_text(),
{
    copied("還沒有複製過東西")
}

/// Names the entries that are not this book's own.
pub open spec fn wiki_global_text() -> Seq<char> {
    "全局"@
}

/// Names the entries that are not this book's own.
pub fn wiki_global() -> (said: String)
    ensures
        said@ == wiki_global_text(),
{
    copied("全局")
}

/// The heading of the report on the wiki.
pub open spec fn wiki_title_text() -> Seq<char> {
    "作品百科"@
}

/// The heading of the report on the wiki.
pub fn wiki_title() -> (said: String)
    ensures
        said@ == wiki_title_text(),
{
    copied("作品百科")
}

/// Said when no file of a wiki was reached for; it would be at `path`.
pub open spec fn wiki_none_text(path: Seq<char>) -> Seq<char> {
    "還沒有百科，寫在 "@ + path + " 裏就有了"@
}

/// Said when no file of a wiki was reached for; it would be at `path`.
pub fn wiki_none(path: &str) -> (said: String)
    ensures
        said@ == wiki_none_text(path@),
{
    let mut said: String = copied("還沒有百科，寫在 ");
    said.push_str(path);
    said.push_str(" 裏就有了");
    assert(said@ =~= wiki_none_text(path@));
    said
}

/// Said of a file that gave `n` entries.
pub open spec fn wiki_read_text(path: Seq<char>, n: nat) -> Seq<char> {
    path + "："@ + decimal(n) + " 條"@
}

/// Said of a file that gave `n` entries.
pub fn wiki_read(path: &str, n: usize) -> (said: String)
    ensures
        said@ == wiki_read_text(path@, n as nat),
{
    let mut said: String = copied(path);
    said.push_str("：");
    said.push_str(decimal_of(n as u64).as_str());
    said.push_str(" 條");
    assert(said@ =~= wiki_read_text(path@, n as nat));
    said
}

/// Said of a file that is not there.
pub open spec fn wiki_missing_text(path: Seq<char>) -> Seq<char> {
    path + "：沒有這個檔案"@
}

/// Said of a file that is not there.
pub fn wiki_missing(path: &str) -> (said: String)
    ensures
        said@ == wiki_missing_text(path@),
{
    let mut said: String = copied(path);
    said.push_str("：沒有這個檔案");
    assert(said@ =~= wiki_missing_text(path@));
    said
}

/// Said of a file that could not be read.
pub open spec fn wiki_unreadable_text(path: Seq<char>, why: Seq<char>) -> Seq<char> {
    path + "：讀不了（"@ + why + "）"@
}

/// Said of a file that could not be read.
pub fn wiki_unreadable(path: &str, why: &str) -> (said: String)
    ensures
        said@ == wiki_unreadable_text(path@, why@),
{
    let mut said: String = copied(path);
    said.push_str("：讀不了（");
    said.push_str(why);
    said.push_str("）");
    assert(said@ =~= wiki_unreadable_text(path@, why@));
    said
}

/// Said of a name that `from` must not name.
pub open spec fn wiki_refused_text(named: Seq<char>, from: Seq<char>) -> Seq<char> {
    named + "：不在這本書裏，不讀（"@ + from + " 寫的）"@
}

/// Said of a name that `from` must not name.
pub fn wiki_refused(named: &str, from: &str) -> (said: String)
    ensures
        said@ == wiki_refused_text(named@, from@),
{
    let mut said: String = copied(named);
    said.push_str("：不在這本書裏，不讀（");
    said.push_str(from);
    said.push_str(" 寫的）");
    assert(said@ =~= wiki_refused_text(named@, from@));
    said
}

/// Said of a file that was read before.
pub open spec fn wiki_again_text(path: Seq<char>) -> Seq<char> {
    path + "：已經讀過"@
}

/// Said of a file that was read before.
pub fn wiki_again(path: &str) -> (said: String)
    ensures
        said@ == wiki_again_text(path@),
{
    let mut said: String = copied(path);
    said.push_str("：已經讀過");
    assert(said@ =~= wiki_again_text(path@));
    said
}

/// Said of a name that came after too many files.
pub open spec fn wiki_too_many_text(named: Seq<char>) -> Seq<char> {
    named + "：檔案太多，沒有讀"@
}

/// Said of a name that came after too many files.
pub fn wiki_too_many(named: &str) -> (said: String)
    ensures
        said@ == wiki_too_many_text(named@),
{
    let mut said: String = copied(named);
    said.push_str("：檔案太多，沒有讀");
    assert(said@ =~= wiki_too_many_text(named@));
    said
}

/// The heading over the names that are too short to be marked.
pub open spec fn wiki_unmarkable_text() -> Seq<char> {
    "太短，標不出來"@
}

/// The heading over the names that are too short to be marked.
pub fn wiki_unmarkable() -> (said: String)
    ensures
        said@ == wiki_unmarkable_text(),
{
    copied("太短，標不出來")
}

/// The heading over the names that stand in the text without a mark.
pub open spec fn wiki_missed_text() -> Seq<char> {
    "這個檔案裏有、卻沒有標出來的"@
}

/// The heading over the names that stand in the text without a mark.
pub fn wiki_missed() -> (said: String)
    ensures
        said@ == wiki_missed_text(),
{
    copied("這個檔案裏有、卻沒有標出來的")
}

/// Said of a name and the lines it stands on without a mark.
pub open spec fn wiki_missed_at_text(name: Seq<char>, lines: Seq<char>) -> Seq<char> {
    name + "：第 "@ + lines + " 行"@
}

/// Said of a name and the lines it stands on without a mark.
pub fn wiki_missed_at(name: &str, lines: &str) -> (said: String)
    ensures
        said@ == wiki_missed_at_text(name@, lines@),
{
    let mut said: String = copied(name);
    said.push_str("：第 ");
    said.push_str(lines);
    said.push_str(" 行");
    assert(said@ =~= wiki_missed_at_text(name@, lines@));
    said
}

/// Said when names are no longer marked.
pub open spec fn wiki_marks_off_text() -> Seq<char> {
    "百科名字不再標出"@
}

/// Said when names are no longer marked.
pub fn wiki_marks_off() -> (said: String)
    ensures
        said@ == wiki_marks_off_text(),
{
    copied("百科名字不再標出")
}

/// Said when names are marked by colour.
pub open spec fn wiki_marks_color_text() -> Seq<char> {
    "百科名字用顏色標出"@
}

/// Said when names are marked by colour.
pub fn wiki_marks_color() -> (said: String)
    ensures
        said@ == wiki_marks_color_text(),
{
    copied("百科名字用顏色標出")
}

/// Said when names are marked by a line.
pub open spec fn wiki_marks_line_text() -> Seq<char> {
    "百科名字用線標出"@
}

/// Said when names are marked by a line.
pub fn wiki_marks_line() -> (said: String)
    ensures
        said@ == wiki_marks_line_text(),
{
    copied("百科名字用線標出")
}

/// Said when the wiki was read again.
pub open spec fn wiki_reloaded_text(entries: nat, files: nat) -> Seq<char> {
    "百科："@ + decimal(entries) + " 條，"@ + decimal(files) + " 個檔案"@
}

/// Said when the wiki was read again.
pub fn wiki_reloaded(entries: usize, files: usize) -> (said: String)
    ensures
        said@ == wiki_reloaded_text(entries as nat, files as nat),
{
    let mut said: String = copied("百科：");
    said.push_str(decimal_of(entries as u64).as_str());
    said.push_str(" 條，");
    said.push_str(decimal_of(files as u64).as_str());
    said.push_str(" 個檔案");
    assert(said@ =~= wiki_reloaded_text(entries as nat, files as nat));
    said
}

/// Said when the file of a wiki was opened and holds nothing.
pub open spec fn wiki_opened_empty_text(path: Seq<char>) -> Seq<char> {
    path + " 是空的，用 ## 名字 開一條"@
}

/// Said when the file of a wiki was opened and holds nothing.
pub fn wiki_opened_empty(path: &str) -> (said: String)
    ensures
        said@ == wiki_opened_empty_text(path@),
{
    let mut said: String = copied(path);
    said.push_str(" 是空的，用 ## 名字 開一條");
    assert(said@ =~= wiki_opened_empty_text(path@));
    said
}

/// Said when there is nowhere to keep what belongs to no book.
pub open spec fn no_data_directory_text() -> Seq<char> {
    "沒有存放數據的目錄"@
}

/// Said when there is nowhere to keep what belongs to no book.
pub fn no_data_directory() -> (said: String)
    ensures
        said@ == no_data_directory_text(),
{
    copied("沒有存放數據的目錄")
}

/// Said when a file could not be opened.
pub open spec fn cannot_open_text(named: Seq<char>, why: Seq<char>) -> Seq<char> {
    "打不開 "@ + named + "："@ + why
}

/// Said when a file could not be opened.
pub fn cannot_open(named: &str, why: &str) -> (said: String)
    ensures
        said@ == cannot_open_text(named@, why@),
{
    let mut said: String = copied("打不開 ");
    said.push_str(named);
    said.push_str("：");
    said.push_str(why);
    assert(said@ =~= cannot_open_text(named@, why@));
    said
}

/// Said when a character is not on the rest of the line.
pub open spec fn not_on_line_text(c: char) -> Seq<char> {
    "這一行後面沒有 "@ + seq![c]
}

/// Said when a character is not on the rest of the line.
pub fn not_on_line(c: char) -> (said: String)
    ensures
        said@ == not_on_line_text(c),
{
    let mut said: String = copied("這一行後面沒有 ");
    said.push(c);
    assert(said@ =~= not_on_line_text(c));
    said
}

/// Said when the cursor is on no bracket that has another half.
pub open spec fn no_bracket_here_text() -> Seq<char> {
    "這裏沒有成對的括號"@
}

/// Said when the cursor is on no bracket that has another half.
pub fn no_bracket_here() -> (said: String)
    ensures
        said@ == no_bracket_here_text(),
{
    copied("這裏沒有成對的括號")
}

/// Said when no pair that `c` names is round the cursor.
pub open spec fn no_pair_text(c: char) -> Seq<char> {
    "外面沒有 "@ + seq![c] + " 這一對"@
}

/// Said when no pair that `c` names is round the cursor.
pub fn no_pair(c: char) -> (said: String)
    ensures
        said@ == no_pair_text(c),
{
    let mut said: String = copied("外面沒有 ");
    said.push(c);
    said.push_str(" 這一對");
    assert(said@ =~= no_pair_text(c));
    said
}

/// Said of a pattern that is no regular expression.
pub open spec fn bad_pattern_text(pattern: Seq<char>) -> Seq<char> {
    "bad pattern: "@ + pattern
}

/// Said of a pattern that is no regular expression.
pub fn bad_pattern(pattern: &str) -> (said: String)
    ensures
        said@ == bad_pattern_text(pattern@),
{
    let mut said: String = copied("bad pattern: ");
    said.push_str(pattern);
    assert(said@ =~= bad_pattern_text(pattern@));
    said
}

/// Said of a pattern that is nowhere.
pub open spec fn not_found_text(pattern: Seq<char>) -> Seq<char> {
    "找不到 "@ + pattern
}

/// Said of a pattern that is nowhere.
pub fn not_found(pattern: &str) -> (said: String)
    ensures
        said@ == not_found_text(pattern@),
{
    let mut said: String = copied("找不到 ");
    said.push_str(pattern);
    assert(said@ =~= not_found_text(pattern@));
    said
}

/// Said when there is no pattern to look for again.
pub open spec fn nothing_searched_text() -> Seq<char> {
    "還沒有搜索過"@
}

/// Said when there is no pattern to look for again.
pub fn nothing_searched() -> (said: String)
    ensures
        said@ == nothing_searched_text(),
{
    copied("還沒有搜索過")
}

/// Said when places were counted.
pub open spec fn counted_places_text(n: nat) -> Seq<char> {
    "找到 "@ + decimal(n) + " 處"@
}

/// Said when places were counted.
pub fn counted_places(n: usize) -> (said: String)
    ensures
        said@ == counted_places_text(n as nat),
{
    let mut said: String = copied("找到 ");
    said.push_str(decimal_of(n as u64).as_str());
    said.push_str(" 處");
    assert(said@ =~= counted_places_text(n as nat));
    said
}

/// Said when places were replaced.
pub open spec fn replaced_places_text(n: nat) -> Seq<char> {
    "替換了 "@ + decimal(n) + " 處"@
}

/// Said when places were replaced.
pub fn replaced_places(n: usize) -> (said: String)
    ensures
        said@ == replaced_places_text(n as nat),
{
    let mut said: String = copied("替換了 ");
    said.push_str(decimal_of(n as u64).as_str());
    said.push_str(" 處");
    assert(said@ =~= replaced_places_text(n as nat));
    said
}

/// Where another editor has `0`.
pub open spec fn hint_line_start_text() -> Seq<char> {
    "行首是 gh"@
}

/// Where another editor has `0`.
pub fn hint_line_start() -> (said: String)
    ensures
        said@ == hint_line_start_text(),
{
    copied("行首是 gh")
}

/// Where another editor has `$`.
pub open spec fn hint_line_end_text() -> Seq<char> {
    "行末是 gl"@
}

/// Where another editor has `$`.
pub fn hint_line_end() -> (said: String)
    ensures
        said@ == hint_line_end_text(),
{
    copied("行末是 gl")
}

/// Where another editor has `^`.
pub open spec fn hint_line_text_text() -> Seq<char> {
    "行首第一個字是 gs"@
}

/// Where another editor has `^`.
pub fn hint_line_text() -> (said: String)
    ensures
        said@ == hint_line_text_text(),
{
    copied("行首第一個字是 gs")
}

/// Where another editor has `@`.
pub open spec fn hint_macro_text() -> Seq<char> {
    "錄宏是 Q，放宏是 q"@
}

/// Where another editor has `@`.
pub fn hint_macro() -> (said: String)
    ensures
        said@ == hint_macro_text(),
{
    copied("錄宏是 Q，放宏是 q")
}

/// Where another editor has `(`.
pub open spec fn hint_sentence_text() -> Seq<char> {
    "一句一句走是 H 和 L"@
}

/// Where another editor has `(`.
pub fn hint_sentence() -> (said: String)
    ensures
        said@ == hint_sentence_text(),
{
    copied("一句一句走是 H 和 L")
}

/// Where another editor has `C-r`.
pub open spec fn hint_redo_text() -> Seq<char> {
    "重做是 U"@
}

/// Where another editor has `C-r`.
pub fn hint_redo() -> (said: String)
    ensures
        said@ == hint_redo_text(),
{
    copied("重做是 U")
}

/// Where another editor has `C-c`.
pub open spec fn hint_comment_text() -> Seq<char> {
    "註釋是 空格 c"@
}

/// Where another editor has `C-c`.
pub fn hint_comment() -> (said: String)
    ensures
        said@ == hint_comment_text(),
{
    copied("註釋是 空格 c")
}

/// Where another editor has a backtick.
pub open spec fn hint_case_text() -> Seq<char> {
    "轉小寫是 `l，轉大寫是 `u"@
}

/// Where another editor has a backtick.
pub fn hint_case() -> (said: String)
    ensures
        said@ == hint_case_text(),
{
    copied("轉小寫是 `l，轉大寫是 `u")
}

/// Where `gw` went.
pub open spec fn hint_definition_text() -> Seq<char> {
    "gw 現在是 gD"@
}

/// Where `gw` went.
pub fn hint_definition() -> (said: String)
    ensures
        said@ == hint_definition_text(),
{
    copied("gw 現在是 gD")
}

/// Said when a number is the least there is.
pub open spec fn cannot_step_text() -> Seq<char> {
    "這個數不能再小了"@
}

/// Said when a number is the least there is.
pub fn cannot_step() -> (said: String)
    ensures
        said@ == cannot_step_text(),
{
    copied("這個數不能再小了")
}

/// Said when the buffer is locked.
pub open spec fn readonly_on_text() -> Seq<char> {
    "readonly on：這個檔案是鎖着的"@
}

/// Said when the buffer is locked.
pub fn readonly_on() -> (said: String)
    ensures
        said@ == readonly_on_text(),
{
    copied("readonly on：這個檔案是鎖着的")
}

/// Said when the buffer is not locked.
pub open spec fn readonly_off_text() -> Seq<char> {
    "readonly off：這個檔案可以改"@
}

/// Said when the buffer is not locked.
pub fn readonly_off() -> (said: String)
    ensures
        said@ == readonly_off_text(),
{
    copied("readonly off：這個檔案可以改")
}

/// Said when changes that were not saved hold up a command.
pub open spec fn unsaved_text() -> Seq<char> {
    "還有沒存的改動"@
}

/// Said when changes that were not saved hold up a command.
pub fn unsaved() -> (said: String)
    ensures
        said@ == unsaved_text(),
{
    copied("還有沒存的改動")
}

/// Said when a buffer has no file.
pub open spec fn no_file_name_text() -> Seq<char> {
    "還沒有檔案名"@
}

/// Said when a buffer has no file.
pub fn no_file_name() -> (said: String)
    ensures
        said@ == no_file_name_text(),
{
    copied("還沒有檔案名")
}

/// Said of a command that there is not.
pub open spec fn unknown_command_text(name: Seq<char>) -> Seq<char> {
    "沒有這條命令："@ + name
}

/// Said of a command that there is not.
pub fn unknown_command(name: &str) -> (said: String)
    ensures
        said@ == unknown_command_text(name@),
{
    let mut said: String = copied("沒有這條命令：");
    said.push_str(name);
    assert(said@ =~= unknown_command_text(name@));
    said
}

/// Said of what a command does not take.
pub open spec fn bad_argument_text(what: Seq<char>) -> Seq<char> {
    "看不懂："@ + what
}

/// Said of what a command does not take.
pub fn bad_argument(what: &str) -> (said: String)
    ensures
        said@ == bad_argument_text(what@),
{
    let mut said: String = copied("看不懂：");
    said.push_str(what);
    assert(said@ =~= bad_argument_text(what@));
    said
}

/// What a buffer without a file is called.
pub open spec fn scratch_name_text() -> Seq<char> {
    "[scratch]"@
}

/// What a buffer without a file is called.
pub fn scratch_name() -> (said: String)
    ensures
        said@ == scratch_name_text(),
{
    copied("[scratch]")
}

/// One line of the listing of conflicts.
pub open spec fn conflict_line_text(name: Seq<char>, line: nat, ours: Seq<char>, theirs: Seq<char>) -> Seq<char> {
    name + ":"@ + decimal(line) + ": "@ + ours + " ⇄ "@ + theirs + "\n"@
}

/// One line of the listing of conflicts.
pub fn conflict_line(name: &str, line: usize, ours: &str, theirs: &str) -> (said: String)
    ensures
        said@ == conflict_line_text(name@, line as nat, ours@, theirs@),
{
    let mut said: String = copied(name);
    said.push_str(":");
    said.push_str(decimal_of(line as u64).as_str());
    said.push_str(": ");
    said.push_str(ours);
    said.push_str(" ⇄ ");
    said.push_str(theirs);
    said.push_str("\n");
    assert(said@ =~= conflict_line_text(name@, line as nat, ours@, theirs@));
    said
}

/// Said when there is no conflict further on.
pub open spec fn no_conflict_after_text() -> Seq<char> {
    "後面沒有衝突了"@
}

/// Said when there is no conflict further on.
pub fn no_conflict_after() -> (said: String)
    ensures
        said@ == no_conflict_after_text(),
{
    copied("後面沒有衝突了")
}

/// Said when there is no conflict further back.
pub open spec fn no_conflict_before_text() -> Seq<char> {
    "前面沒有衝突了"@
}

/// Said when there is no conflict further back.
pub fn no_conflict_before() -> (said: String)
    ensures
        said@ == no_conflict_before_text(),
{
    copied("前面沒有衝突了")
}

/// Said when the cursor is in no conflict.
pub open spec fn not_in_conflict_text() -> Seq<char> {
    "光標不在衝突裏"@
}

/// Said when the cursor is in no conflict.
pub fn not_in_conflict() -> (said: String)
    ensures
        said@ == not_in_conflict_text(),
{
    copied("光標不在衝突裏")
}

/// Said when a text has no conflict.
pub open spec fn no_conflicts_text() -> Seq<char> {
    "這裏沒有衝突"@
}

/// Said when a text has no conflict.
pub fn no_conflicts() -> (said: String)
    ensures
        said@ == no_conflicts_text(),
{
    copied("這裏沒有衝突")
}

/// Said when a language has no comments.
pub open spec fn no_comments_text() -> Seq<char> {
    "純文字沒有註釋"@
}

/// Said when a language has no comments.
pub fn no_comments() -> (said: String)
    ensures
        said@ == no_comments_text(),
{
    copied("純文字沒有註釋")
}

/// Said when there is nothing a reading could be for.
pub open spec fn nothing_to_read_text() -> Seq<char> {
    "這裏沒有可以注音的字"@
}

/// Said when there is nothing a reading could be for.
pub fn nothing_to_read() -> (said: String)
    ensures
        said@ == nothing_to_read_text(),
{
    copied("這裏沒有可以注音的字")
}

/// Said when every reading is written that way.
pub open spec fn readings_uniform_text() -> Seq<char> {
    "注音已經是這一種寫法"@
}

/// Said when every reading is written that way.
pub fn readings_uniform() -> (said: String)
    ensures
        said@ == readings_uniform_text(),
{
    copied("注音已經是這一種寫法")
}

/// What a count of the whole text begins with.
pub open spec fn count_whole_text() -> Seq<char> {
    "全篇"@
}

/// What a count of the whole text begins with.
pub fn count_whole() -> (said: String)
    ensures
        said@ == count_whole_text(),
{
    copied("全篇")
}

/// What a count of the selection begins with.
pub open spec fn count_selection_text() -> Seq<char> {
    "選區"@
}

/// What a count of the selection begins with.
pub fn count_selection() -> (said: String)
    ensures
        said@ == count_selection_text(),
{
    copied("選區")
}

/// How much was written.
pub open spec fn count_report_text(scope: Seq<char>, han: nat, written: nat, paragraphs: nat) -> Seq<char> {
    scope + "：漢字 "@ + decimal(han) + "，字數 "@ + decimal(written) + "，"@ + decimal(paragraphs) + " 段"@
}

/// How much was written.
pub fn count_report(scope: &str, han: usize, written: usize, paragraphs: usize) -> (said: String)
    ensures
        said@ == count_report_text(scope@, han as nat, written as nat, paragraphs as nat),
{
    let mut said: String = copied(scope);
    said.push_str("：漢字 ");
    said.push_str(decimal_of(han as u64).as_str());
    said.push_str("，字數 ");
    said.push_str(decimal_of(written as u64).as_str());
    said.push_str("，");
    said.push_str(decimal_of(paragraphs as u64).as_str());
    said.push_str(" 段");
    assert(said@ =~= count_report_text(scope@, han as nat, written as nat, paragraphs as nat));
    said
}

/// Said when the headings are shown.
pub open spec fn outline_size_text(n: nat) -> Seq<char> {
    "目錄："@ + decimal(n) + " 個標題"@
}

/// Said when the headings are shown.
pub fn outline_size(n: usize) -> (said: String)
    ensures
        said@ == outline_size_text(n as nat),
{
    let mut said: String = copied("目錄：");
    said.push_str(decimal_of(n as u64).as_str());
    said.push_str(" 個標題");
    assert(said@ =~= outline_size_text(n as nat));
    said
}

/// Said when a text has no heading.
pub open spec fn no_headings_text() -> Seq<char> {
    "這裏沒有標題"@
}

/// Said when a text has no heading.
pub fn no_headings() -> (said: String)
    ensures
        said@ == no_headings_text(),
{
    copied("這裏沒有標題")
}

/// Said when there are fewer headings.
pub open spec fn no_such_heading_text(n: nat) -> Seq<char> {
    "沒有第 "@ + decimal(n) + " 個標題"@
}

/// Said when there are fewer headings.
pub fn no_such_heading(n: usize) -> (said: String)
    ensures
        said@ == no_such_heading_text(n as nat),
{
    let mut said: String = copied("沒有第 ");
    said.push_str(decimal_of(n as u64).as_str());
    said.push_str(" 個標題");
    assert(said@ =~= no_such_heading_text(n as nat));
    said
}

/// Says how far a notch of the wheel goes.
pub open spec fn wheel_is_text(n: nat) -> Seq<char> {
    "滾輪一格 "@ + decimal(n) + " 行"@
}

/// Says how far a notch of the wheel goes.
pub fn wheel_is(n: usize) -> (said: String)
    ensures
        said@ == wheel_is_text(n as nat),
{
    let mut said: String = copied("滾輪一格 ");
    said.push_str(decimal_of(n as u64).as_str());
    said.push_str(" 行");
    assert(said@ =~= wheel_is_text(n as nat));
    said
}

/// Said when lines are to be folded on a vertical page.
pub open spec fn vertical_no_wrap_text() -> Seq<char> {
    "縱書不折行"@
}

/// Said when lines are to be folded on a vertical page.
pub fn vertical_no_wrap() -> (said: String)
    ensures
        said@ == vertical_no_wrap_text(),
{
    copied("縱書不折行")
}

/// Said when marks cannot hang yet.
pub open spec fn hanging_needs_both_text() -> Seq<char> {
    "還不行，需要：竪排、密排關（加 force 一併辦到）"@
}

/// Said when marks cannot hang yet.
pub fn hanging_needs_both() -> (said: String)
    ensures
        said@ == hanging_needs_both_text(),
{
    copied("還不行，需要：竪排、密排關（加 force 一併辦到）")
}

/// Said when marks cannot hang yet.
pub open spec fn hanging_needs_vertical_text() -> Seq<char> {
    "還不行，需要：竪排（加 force 一併辦到）"@
}

/// Said when marks cannot hang yet.
pub fn hanging_needs_vertical() -> (said: String)
    ensures
        said@ == hanging_needs_vertical_text(),
{
    copied("還不行，需要：竪排（加 force 一併辦到）")
}

/// Said when marks cannot hang yet.
pub open spec fn hanging_needs_loose_text() -> Seq<char> {
    "還不行，需要：密排關（加 force 一併辦到）"@
}

/// Said when marks cannot hang yet.
pub fn hanging_needs_loose() -> (said: String)
    ensures
        said@ == hanging_needs_loose_text(),
{
    copied("還不行，需要：密排關（加 force 一併辦到）")
}

/// Said when marks hang beside the column.
pub open spec fn hanging_on_text() -> Seq<char> {
    "標點旁置：開"@
}

/// Said when marks hang beside the column.
pub fn hanging_on() -> (said: String)
    ensures
        said@ == hanging_on_text(),
{
    copied("標點旁置：開")
}

/// Said when marks do not hang.
pub open spec fn hanging_off_text() -> Seq<char> {
    "標點旁置：關"@
}

/// Said when marks do not hang.
pub fn hanging_off() -> (said: String)
    ensures
        said@ == hanging_off_text(),
{
    copied("標點旁置：關")
}

/// Said when there is no table to type with.
pub open spec fn needs_table_text() -> Seq<char> {
    "還沒有碼表"@
}

/// Said when there is no table to type with.
pub fn needs_table() -> (said: String)
    ensures
        said@ == needs_table_text(),
{
    copied("還沒有碼表")
}

} // verus!
