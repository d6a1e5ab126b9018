//! The two file formats: the task file (`tasks.md`) and the archive files
//! (`archived-YYYY-MM.md`), written and read.

use vstd::prelude::*;
use crate::date::{Date, naive_date_text, date_text, parse_date, naive_date_parse, ymd_format};
use crate::error::FiniError;
use crate::sort::{SortKey, stable_sort, sort_tasks, lemma_stable_sort_members, ordered_from, law_stable_sort_orders};
use crate::task_item::{Status, TaskItem, TaskView, views, fini_line, fini_string, shows_link, get_task_link_for_format, star_marker, star_marker_text};
use crate::commands::LinkFormat;
use crate::text::{join_lines, push_str, push_char, split_lines, trim, starts_with, strip_all_prefixes, find_from, ws_run, is_ws, is_whitespace, chars_of, sub_vec, string_of, trim_vec, starts_with_vec, strip_prefixes_vec, find_from_vec, ws_run_vec};

verus! {

/// The header above the undated tasks of the task file: `## Active Tasks`.
pub open spec fn active_header() -> Seq<char> {
    seq!['#', '#', ' ', 'A', 'c', 't', 'i', 'v', 'e', ' ', 'T', 'a', 's', 'k', 's']
}

/// The start of a date header: `## `.
pub open spec fn header_start() -> Seq<char> {
    seq!['#', '#', ' ']
}

/// The header above the tasks of a date: `## ` and the date.
pub open spec fn date_header(d: Date) -> Seq<char> {
    header_start() + naive_date_text(d.year, d.month, d.day)
}

/// The task's date, if it has one, is a valid one.
pub open spec fn date_ok(t: TaskView) -> bool {
    match t.active_date {
        Some(d) => d.valid(),
        None => true,
    }
}

/// The task has a date, and it is a valid one.
pub open spec fn dated_ok(t: TaskView) -> bool {
    match t.active_date {
        Some(d) => d.valid(),
        None => false,
    }
}

/// Every date of the tasks is a valid one.
pub open spec fn dates_valid(s: Seq<TaskView>) -> bool {
    forall|i: int| 0 <= i < s.len() ==> date_ok(#[trigger] s[i])
}

/// Whether every date of the tasks is a valid one.
pub fn dates_are_valid(tasks: &Vec<TaskItem>) -> (r: bool)
    ensures
        r == dates_valid(views(tasks@)),
{
    let mut i: usize = 0;
    while i < tasks.len()
        invariant
            i <= tasks.len(),
            forall|k: int| 0 <= k < i ==> date_ok(#[trigger] views(tasks@)[k]),
        decreases tasks.len() - i,
    {
        assert(views(tasks@)[i as int] == tasks@[i as int]@);
        match tasks[i].active_date {
            Some(d) => {
                if !d.is_valid() {
                    assert(!date_ok(views(tasks@)[i as int]));
                    return false;
                }
            },
            None => {},
        }
        i += 1;
    }
    true
}

/// Every task has a date, and it is a valid one.
pub open spec fn all_dated(s: Seq<TaskView>) -> bool {
    forall|i: int| 0 <= i < s.len() ==> dated_ok(#[trigger] s[i])
}

/// The date of the last task, if any.
pub open spec fn last_date(s: Seq<TaskView>) -> Option<Date> {
    if s.len() == 0 { None } else { s.last().active_date }
}

/// The lines that a task adds to the task file after a task dated `prev`: a blank
/// line and a date header when the task has a date other than `prev`, then the task.
pub open spec fn task_piece(prev: Option<Date>, t: TaskView) -> Seq<Seq<char>> {
    (match t.active_date {
        Some(d) => if prev != Some(d) {
            seq![Seq::<char>::empty(), date_header(d)]
        } else {
            Seq::empty()
        },
        None => Seq::empty(),
    }) + seq![fini_line(t)]
}

/// The lines that the tasks, in this order, fill the task file with.
pub open spec fn task_body_lines(s: Seq<TaskView>) -> Seq<Seq<char>>
    decreases s.len(),
{
    if s.len() == 0 {
        Seq::empty()
    } else {
        task_body_lines(s.drop_last()) + task_piece(last_date(s.drop_last()), s.last())
    }
}

/// The lines of the task file for the tasks: the `## Active Tasks` header, then the
/// tasks ordered by date (undated first), each date's tasks under its header.
pub open spec fn task_file_lines(tasks: Seq<TaskView>) -> Seq<Seq<char>> {
    seq![active_header()] + task_body_lines(stable_sort(SortKey::ByDate, tasks))
}

/// The text of the task file for the tasks.
pub open spec fn task_file_text(tasks: Seq<TaskView>) -> Seq<char> {
    join_lines(task_file_lines(tasks))
}

proof fn lemma_join_push(lines: Seq<Seq<char>>, x: Seq<char>)
    requires
        lines.len() >= 1,
    ensures
        join_lines(lines.push(x)) == join_lines(lines) + seq!['\n'] + x,
{
    assert(lines.push(x).drop_last() =~= lines);
}

/// Appends a line to a text whose lines are `lines` (at least one).
fn push_line(out: &mut String, line: &str, Ghost(lines): Ghost<Seq<Seq<char>>>)
    requires
        lines.len() >= 1,
        old(out)@ == join_lines(lines),
    ensures
        final(out)@ == join_lines(lines.push(line@)),
{
    proof {
        lemma_join_push(lines, line@);
    }
    push_char(out, '\n');
    push_str(out, line);
}

fn header_string(d: Date) -> (r: String)
    requires
        d.valid(),
    ensures
        r@ == date_header(d),
{
    let mut r = String::new();
    proof {
        reveal_strlit("## ");
    }
    push_str(&mut r, "## ");
    let t = date_text(d);
    push_str(&mut r, t.as_str());
    r
}

/// Writes the tasks in the task file format (`tasks_as_markdown` with
/// `TaskItemFiniMarkdown`).
pub fn tasks_as_markdown(items: Vec<TaskItem>) -> (r: String)
    requires
        dates_valid(views(items@)),
    ensures
        r@ == task_file_text(views(items@)),
{
    let ghost input = views(items@);
    let sorted = sort_tasks(items, SortKey::ByDate);
    let ghost vs = views(sorted@);
    proof {
        crate::sort::lemma_stable_sort_members(SortKey::ByDate, input);
        assert forall|i: int| 0 <= i < vs.len() implies date_ok(#[trigger] vs[i]) by {
            assert(vs.contains(vs[i]));
            let j = choose|j: int| 0 <= j < input.len() && input[j] == vs[i];
            assert(date_ok(input[j]));
        }
    }
    let mut out = String::new();
    proof {
        reveal_strlit("## Active Tasks");
    }
    push_str(&mut out, "## Active Tasks");
    let ghost mut lines: Seq<Seq<char>> = seq![active_header()];
    assert(out@ =~= join_lines(lines));
    let mut current: Option<Date> = None;
    let mut i: usize = 0;
    while i < sorted.len()
        invariant
            i <= sorted.len(),
            vs == views(sorted@),
            dates_valid(vs),
            lines.len() >= 1,
            lines == seq![active_header()] + task_body_lines(vs.take(i as int)),
            out@ == join_lines(lines),
            current == last_date(vs.take(i as int)),
        decreases sorted.len() - i,
    {
        let t = &sorted[i];
        assert(vs[i as int] == t@);
        assert(vs.take(i + 1).drop_last() =~= vs.take(i as int));
        assert(vs.take(i + 1).last() == t@);
        let ghost before = lines;
        if let Some(d) = t.active_date {
            let same = match current {
                Some(c) => c.same_as(&d),
                None => false,
            };
            if !same {
                let blank = "";
                proof {
                    reveal_strlit("");
                }
                assert(blank@ =~= Seq::<char>::empty());
                push_line(&mut out, blank, Ghost(lines));
                proof {
                    lines = lines.push(Seq::empty());
                }
                let h = header_string(d);
                push_line(&mut out, h.as_str(), Ghost(lines));
                proof {
                    lines = lines.push(date_header(d));
                }
            }
        }
        let line = fini_string(t);
        push_line(&mut out, line.as_str(), Ghost(lines));
        proof {
            lines = lines.push(fini_line(t@));
            assert(lines =~= before + task_piece(current, t@));
            assert(lines =~= seq![active_header()] + task_body_lines(vs.take(i + 1)));
        }
        current = t.active_date;
        i += 1;
    }
    assert(vs.take(i as int) =~= vs);
    out
}


/// The date of a task, or the first of January 1970 if it has none.
pub open spec fn date_or_epoch(t: TaskView) -> Date {
    match t.active_date {
        Some(d) => d,
        None => Date::spec_epoch(),
    }
}

/// The date an archive file is at after the tasks: that of the last task, or none
/// before any.
pub open spec fn prev_archive_date(s: Seq<TaskView>) -> Option<Date> {
    if s.len() == 0 { None } else { Some(date_or_epoch(s.last())) }
}

/// The lines an archived task adds after the tasks that end at date `prev` (none
/// before the first): a blank line and a date header when its date differs, then
/// `- ` and the task's text.
pub open spec fn archive_piece(prev: Option<Date>, t: TaskView, text: Seq<char>) -> Seq<Seq<char>> {
    (if Some(date_or_epoch(t)) != prev {
        seq![Seq::<char>::empty(), date_header(date_or_epoch(t))]
    } else {
        Seq::empty()
    }) + seq![seq!['-', ' '] + text]
}

/// The lines of an archive listing of the tasks, in this order, each shown by its
/// text in `texts`.
pub open spec fn archive_lines(s: Seq<TaskView>, texts: Seq<Seq<char>>) -> Seq<Seq<char>>
    decreases s.len(),
{
    if s.len() == 0 {
        Seq::empty()
    } else {
        archive_lines(s.drop_last(), texts.drop_last()) + archive_piece(
            prev_archive_date(s.drop_last()),
            s.last(),
            texts.last(),
        )
    }
}

/// `out` is the archive listing of the tasks `s` (in this order), with `texts[i]`
/// the text of `s[i]` in the link format.
pub open spec fn archive_text_is(
    s: Seq<TaskView>,
    format: LinkFormat,
    texts: Seq<Seq<char>>,
    out: Seq<char>,
) -> bool {
    &&& texts.len() == s.len()
    &&& forall|i: int| 0 <= i < s.len() ==> shows_link(s[i], format, #[trigger] texts[i])
    &&& out == join_lines(archive_lines(s, texts))
}

proof fn lemma_join_one(x: Seq<char>)
    ensures
        join_lines(Seq::<Seq<char>>::empty().push(x)) == x,
{
    assert(Seq::<Seq<char>>::empty().push(x) =~= seq![x]);
}

/// Appends a line to a text whose lines are `lines`, which may be none yet.
fn push_any_line(out: &mut String, started: bool, line: &str, Ghost(lines): Ghost<Seq<Seq<char>>>)
    requires
        started == (lines.len() > 0),
        old(out)@ == join_lines(lines),
    ensures
        final(out)@ == join_lines(lines.push(line@)),
{
    if started {
        push_line(out, line, Ghost(lines));
    } else {
        proof {
            lemma_join_one(line@);
            assert(lines =~= Seq::<Seq<char>>::empty());
            assert(old(out)@ =~= Seq::<char>::empty());
        }
        push_str(out, line);
    }
}

/// Writes the tasks as an archive listing: by date, each date's tasks under a
/// `## YYYY-MM-DD` header after a blank line, each task as `- ` and its text in
/// the link format. Every task needs a date: a listing by date has no place for a
/// task without one.
pub fn archived_tasks_as_markdown(items: Vec<TaskItem>, format: LinkFormat) -> (r: String)
    requires
        all_dated(views(items@)),
    ensures
        exists|texts: Seq<Seq<char>>|
            #[trigger] archive_text_is(
                stable_sort(SortKey::ByDate, views(items@)),
                format,
                texts,
                r@,
            ),
{
    let ghost input = views(items@);
    let sorted = sort_tasks(items, SortKey::ByDate);
    let ghost vs = views(sorted@);
    proof {
        crate::sort::lemma_stable_sort_members(SortKey::ByDate, input);
        assert forall|i: int| 0 <= i < vs.len() implies dated_ok(#[trigger] vs[i]) by {
            assert(vs.contains(vs[i]));
            let j = choose|j: int| 0 <= j < input.len() && input[j] == vs[i];
            assert(dated_ok(input[j]));
        }
    }
    let mut out = String::new();
    let ghost mut lines: Seq<Seq<char>> = Seq::empty();
    let ghost mut texts: Seq<Seq<char>> = Seq::empty();
    assert(out@ =~= join_lines(lines));
    let mut current: Option<Date> = None;
    let mut started = false;
    let mut i: usize = 0;
    while i < sorted.len()
        invariant
            i <= sorted.len(),
            vs == views(sorted@),
            all_dated(vs),
            started == (lines.len() > 0),
            texts.len() == i,
            forall|k: int| 0 <= k < i ==> shows_link(vs[k], format, #[trigger] texts[k]),
            lines == archive_lines(vs.take(i as int), texts),
            out@ == join_lines(lines),
            current == prev_archive_date(vs.take(i as int)),
        decreases sorted.len() - i,
    {
        let t = &sorted[i];
        assert(vs[i as int] == t@);
        assert(dated_ok(vs[i as int]));
        assert(vs.take(i + 1).drop_last() =~= vs.take(i as int));
        assert(vs.take(i + 1).last() == t@);
        let ghost before = lines;
        let d = match t.active_date {
            Some(d) => d,
            None => Date::epoch(),
        };
        let new_date = match current {
            Some(c) => !d.same_as(&c),
            None => true,
        };
        if new_date {
            let blank = "";
            proof {
                reveal_strlit("");
            }
            assert(blank@ =~= Seq::<char>::empty());
            push_any_line(&mut out, started, blank, Ghost(lines));
            proof {
                lines = lines.push(Seq::empty());
            }
            started = true;
            let h = header_string(d);
            push_any_line(&mut out, true, h.as_str(), Ghost(lines));
            proof {
                lines = lines.push(date_header(d));
            }
            started = true;
            current = Some(d);
        }
        let text = get_task_link_for_format(t, format);
        let mut line = String::new();
        proof {
            reveal_strlit("- ");
        }
        push_str(&mut line, "- ");
        push_str(&mut line, text.as_str());
        assert(line@ =~= seq!['-', ' '] + text@);
        push_any_line(&mut out, started, line.as_str(), Ghost(lines));
        started = true;
        proof {
            lines = lines.push(seq!['-', ' '] + text@);
            let new_texts = texts.push(text@);
            assert(new_texts.drop_last() =~= texts);
            assert(lines =~= before + archive_piece(prev_archive_date(vs.take(i as int)), t@, text@));
            assert(lines =~= archive_lines(vs.take(i + 1), new_texts));
            texts = new_texts;
        }
        i += 1;
    }
    assert(vs.take(i as int) =~= vs);
    assert(archive_text_is(vs, format, texts, out@));
    out
}


// ---------------------------------------------------------------------------
// Reading

/// The date that `chrono` reads from a text in the format `%Y-%m-%d`, if any (a
/// date that `chrono` reads is a valid one).
pub open spec fn date_of_text(text: Seq<char>) -> Option<Date> {
    match naive_date_parse(text, ymd_format()) {
        Some(t) => if (Date { year: t.0, month: t.1, day: t.2 }).valid() {
            Some(Date { year: t.0, month: t.1, day: t.2 })
        } else {
            None
        },
        None => None,
    }
}

/// The status that a marker character stands for: `~` in progress, `x` done, `A`
/// archived, whitespace to do.
pub open spec fn status_of_char(c: char) -> Option<Status> {
    if c == '~' {
        Some(Status::InProgress)
    } else if c == 'x' {
        Some(Status::Done)
    } else if c == 'A' {
        Some(Status::Archived)
    } else if is_ws(c) {
        Some(Status::Todo)
    } else {
        None
    }
}

/// Where the body of a task line starts: after `-`, the whitespace, and `[?] `.
pub open spec fn body_start(t: Seq<char>) -> int {
    5 + ws_run(t, 1)
}

/// A (trimmed) line is a task line: `-`, one or more
/// whitespace characters, a status marker in brackets, a space, and a body that
/// starts with no whitespace (a title of one character is a title too).
pub open spec fn is_task_line(t: Seq<char>) -> bool {
    let k = ws_run(t, 1);
    &&& t.len() >= 1 && t[0] == '-'
    &&& k >= 1
    &&& t.len() >= body_start(t) + 1
    &&& t[1 + k] == '['
    &&& status_of_char(t[2 + k]) is Some
    &&& t[3 + k] == ']'
    &&& t[4 + k] == ' '
    &&& !is_ws(t[body_start(t)])
}

/// The status of a task line.
pub open spec fn line_status(t: Seq<char>) -> Status {
    status_of_char(t[2 + ws_run(t, 1)]).unwrap()
}

/// The body of a task line.
pub open spec fn line_body(t: Seq<char>) -> Seq<char> {
    t.subrange(body_start(t), t.len() as int)
}

/// At `i` of `s` starts a Markdown link `[title](target)` with a title and a target
/// of at least one character each (`\[([^\]]+)\]\(([^)]+)\)`).
pub open spec fn link_at(s: Seq<char>, i: int) -> bool {
    let j = find_from(s, ']', i + 1);
    let m = find_from(s, ')', j + 2);
    &&& 0 <= i < s.len() && s[i] == '['
    &&& j < s.len() && j >= i + 2
    &&& j + 1 < s.len() && s[j + 1] == '('
    &&& m < s.len() && m >= j + 3
}

/// The first place at or after `i` where a Markdown link starts, if any.
pub open spec fn first_link_from(s: Seq<char>, i: int) -> Option<int>
    decreases s.len() - i,
{
    if i < 0 || i >= s.len() {
        None
    } else if link_at(s, i) {
        Some(i)
    } else {
        first_link_from(s, i + 1)
    }
}

/// The title of the Markdown link that starts at `i`.
pub open spec fn link_title(s: Seq<char>, i: int) -> Seq<char> {
    s.subrange(i + 1, find_from(s, ']', i + 1))
}

/// The target of the Markdown link that starts at `i`.
pub open spec fn link_target(s: Seq<char>, i: int) -> Seq<char> {
    let j = find_from(s, ']', i + 1);
    s.subrange(j + 2, find_from(s, ')', j + 2))
}

/// Where reading a file has got to: the id for the next task, the date of the last
/// date header, and the tasks read so far.
pub struct ParseState {
    pub next_id: nat,
    pub date: Option<Date>,
    pub tasks: Seq<TaskView>,
}

/// The task that a text (a title, perhaps as a Markdown link) makes: the first
/// Markdown link in the text gives the title and the link; without one, the whole
/// text is the title.
pub open spec fn titled_task(
    st: ParseState,
    text: Seq<char>,
    status: Status,
    star: Option<bool>,
) -> TaskView {
    match first_link_from(text, 0) {
        Some(i) => TaskView {
            id: st.next_id,
            title: link_title(text, i),
            status,
            active_date: st.date,
            link: Some(link_target(text, i)),
            star,
        },
        None => TaskView {
            id: st.next_id,
            title: text,
            status,
            active_date: st.date,
            link: None,
            star,
        },
    }
}

/// The task that a task line's body makes: a leading `⭐️ ` stars it, and the text
/// after all leading `⭐️ ` gives the title and link.
pub open spec fn task_of_body(st: ParseState, status: Status, body: Seq<char>) -> TaskView {
    titled_task(
        st,
        strip_all_prefixes(body, star_marker()),
        status,
        if starts_with(body, star_marker()) { Some(true) } else { None },
    )
}

/// `st` with a task added.
pub open spec fn with_task(st: ParseState, t: TaskView) -> ParseState {
    ParseState { next_id: st.next_id + 1, date: st.date, tasks: st.tasks.push(t) }
}

/// A line that begins (once trimmed) with `## ` sets the date to the one written
/// after all leading `## `; reading fails, with that text, if it is no date.
pub open spec fn header_step(st: ParseState, t: Seq<char>) -> Result<ParseState, Seq<char>> {
    if starts_with(t, header_start()) {
        let text = strip_all_prefixes(t, header_start());
        match date_of_text(text) {
            Some(d) => Ok(ParseState { next_id: st.next_id, date: Some(d), tasks: st.tasks }),
            None => Err(text),
        }
    } else {
        Ok(st)
    }
}

/// Reading one line of the task file: `## Active Tasks` is passed over, a date
/// header sets the date, a task line adds a task, and any other line is passed over.
pub open spec fn task_line_step(st: ParseState, line: Seq<char>) -> Result<ParseState, Seq<char>> {
    let t = trim(line);
    if starts_with(t, active_header()) {
        Ok(st)
    } else {
        match header_step(st, t) {
            Ok(s1) => if is_task_line(t) {
                Ok(with_task(s1, task_of_body(s1, line_status(t), line_body(t))))
            } else {
                Ok(s1)
            },
            Err(e) => Err(e),
        }
    }
}

/// The `- ` that begins an entry of an archive file.
pub open spec fn entry_start() -> Seq<char> {
    seq!['-', ' ']
}

/// The archived task that an entry line of an archive file makes: the first Markdown
/// link on the line gives the title and the link; without one, the line after all
/// leading `- ` is the title.
pub open spec fn archived_task(st: ParseState, t: Seq<char>) -> TaskView {
    match first_link_from(t, 0) {
        Some(i) => TaskView {
            id: st.next_id,
            title: link_title(t, i),
            status: Status::Archived,
            active_date: st.date,
            link: Some(link_target(t, i)),
            star: None,
        },
        None => TaskView {
            id: st.next_id,
            title: strip_all_prefixes(t, entry_start()),
            status: Status::Archived,
            active_date: st.date,
            link: None,
            star: None,
        },
    }
}

/// Reading one line of an archive file: a date header sets the date; once there is
/// a date, a line that begins with `- ` adds an archived task; any other line is
/// passed over.
pub open spec fn archive_line_step(st: ParseState, line: Seq<char>) -> Result<ParseState, Seq<char>> {
    let t = trim(line);
    match header_step(st, t) {
        Ok(s1) => if s1.date is Some && starts_with(t, entry_start()) {
            Ok(with_task(s1, archived_task(s1, t)))
        } else {
            Ok(s1)
        },
        Err(e) => Err(e),
    }
}

/// The two kinds of file.
#[derive(Clone, Copy, PartialEq, Eq, Structural)]
pub enum FileKind {
    TaskFile,
    ArchiveFile,
}

/// Reading one line of a file of the kind.
pub open spec fn line_step(kind: FileKind, st: ParseState, line: Seq<char>) -> Result<ParseState, Seq<char>> {
    match kind {
        FileKind::TaskFile => task_line_step(st, line),
        FileKind::ArchiveFile => archive_line_step(st, line),
    }
}

/// Reading lines one after the other, from `st`; the first failure ends it.
pub open spec fn fold_lines(kind: FileKind, lines: Seq<Seq<char>>, st: ParseState) -> Result<ParseState, Seq<char>>
    decreases lines.len(),
{
    if lines.len() == 0 {
        Ok(st)
    } else {
        match fold_lines(kind, lines.drop_last(), st) {
            Ok(s) => line_step(kind, s, lines.last()),
            Err(e) => Err(e),
        }
    }
}

/// Nothing read yet; ids start at `start`.
pub open spec fn start_state(start: nat) -> ParseState {
    ParseState { next_id: start, date: None, tasks: Seq::empty() }
}

/// The tasks that the task file's text holds, ids counted from `start` in the order
/// of the file, then ordered for display: unfinished before done, starred first,
/// then by date, else in file order. An unreadable date header makes it fail, with
/// the header's text.
pub open spec fn parse_tasks_result(content: Seq<char>, start: nat) -> Result<Seq<TaskView>, Seq<char>> {
    match fold_lines(FileKind::TaskFile, split_lines(content), start_state(start)) {
        Ok(st) => Ok(stable_sort(SortKey::DoneThenStarThenDate, st.tasks)),
        Err(e) => Err(e),
    }
}

proof fn lemma_find_shift(s: Seq<char>, c: char, k: int, from: int)
    requires
        0 <= k <= from,
        k <= s.len(),
    ensures
        find_from(s, c, from) == k + find_from(s.skip(k), c, from - k),
    decreases s.len() - from,
{
    if from < s.len() {
        assert(s.skip(k)[from - k] == s[from]);
        if s[from] != c {
            lemma_find_shift(s, c, k, from + 1);
        }
    }
}

proof fn lemma_find_bounds(s: Seq<char>, c: char, from: int)
    requires
        0 <= from <= s.len(),
    ensures
        from <= find_from(s, c, from) <= s.len(),
        find_from(s, c, from) < s.len() ==> s[find_from(s, c, from)] == c,
        forall|k: int| from <= k < find_from(s, c, from) ==> s[k] != c,
    decreases s.len() - from,
{
    if from < s.len() && s[from] != c {
        lemma_find_bounds(s, c, from + 1);
    }
}

/// The first line of a text, and the lines after it.
proof fn lemma_split_first(s: Seq<char>)
    ensures
        find_from(s, '\n', 0) < s.len() ==> split_lines(s) == seq![s.take(find_from(s, '\n', 0))]
            + split_lines(s.skip(find_from(s, '\n', 0) + 1)),
        find_from(s, '\n', 0) >= s.len() ==> split_lines(s) == seq![s],
    decreases s.len(),
{
    lemma_find_bounds(s, '\n', 0);
    if s.len() == 0 {
        assert(s =~= Seq::<char>::empty());
    } else if s[0] == '\n' {
        assert(s.take(0) =~= Seq::<char>::empty());
        assert(s.skip(1) =~= s.drop_first());
    } else {
        let d = s.drop_first();
        lemma_split_first(d);
        lemma_find_shift(s, '\n', 1, 1);
        assert(s.skip(1) =~= d);
        let e = find_from(s, '\n', 0);
        assert(e == 1 + find_from(d, '\n', 0));
        if e < s.len() {
            assert(seq![s[0]] + d.take(e - 1) =~= s.take(e));
            assert(d.skip(e) =~= s.skip(e + 1));
            assert(split_lines(s) =~= seq![s.take(e)] + split_lines(s.skip(e + 1)));
        } else {
            assert(seq![s[0]] + d =~= s);
            assert(split_lines(s) =~= seq![s]);
        }
    }
}


fn status_of_char_exec(c: char) -> (r: Option<Status>)
    ensures
        r == status_of_char(c),
{
    if c == '~' {
        Some(Status::InProgress)
    } else if c == 'x' {
        Some(Status::Done)
    } else if c == 'A' {
        Some(Status::Archived)
    } else if is_whitespace(c) {
        Some(Status::Todo)
    } else {
        None
    }
}

/// Whether a trimmed line is a task line.
fn is_task_line_exec(t: &Vec<char>) -> (r: bool)
    ensures
        r == is_task_line(t@),
{
    if t.len() < 1 || t[0] != '-' {
        return false;
    }
    let k = ws_run_vec(t, 1);
    if k < 1 || t.len() - 1 - k < 5 {
        return false;
    }
    t[1 + k] == '[' && status_of_char_exec(t[2 + k]).is_some() && t[3 + k] == ']' && t[4 + k] == ' '
        && !is_whitespace(t[5 + k])
}

proof fn lemma_first_link(s: Seq<char>, from: int)
    requires
        0 <= from,
    ensures
        first_link_from(s, from) matches Some(i) ==> from <= i < s.len() && link_at(s, i),
    decreases s.len() - from,
{
    if from < s.len() && !link_at(s, from) {
        lemma_first_link(s, from + 1);
    }
}

/// Whether a Markdown link starts at `i`.
fn link_at_exec(s: &Vec<char>, i: usize) -> (r: bool)
    requires
        i < s.len(),
    ensures
        r == link_at(s@, i as int),
{
    if s[i] != '[' {
        return false;
    }
    let j = find_from_vec(s, ']', i + 1);
    if j >= s.len() || j < i + 2 || j + 1 >= s.len() || s[j + 1] != '(' {
        return false;
    }
    let m = find_from_vec(s, ')', j + 2);
    m < s.len() && m >= j + 3
}

/// The first place where a Markdown link starts, if any.
fn first_link(s: &Vec<char>) -> (r: Option<usize>)
    ensures
        r matches Some(i) ==> first_link_from(s@, 0) == Some(i as int),
        r is None ==> first_link_from(s@, 0) is None,
{
    let mut i: usize = 0;
    while i < s.len()
        invariant
            i <= s.len(),
            first_link_from(s@, 0) == first_link_from(s@, i as int),
        decreases s.len() - i,
    {
        if link_at_exec(s, i) {
            return Some(i);
        }
        i += 1;
    }
    None
}

/// The characters of a literal.
fn lit(s: &str) -> (r: Vec<char>)
    ensures
        r@ == s@,
{
    chars_of(s)
}

fn string_of_vec(v: &Vec<char>) -> (r: String)
    ensures
        r@ == v@,
{
    let r = string_of(v, 0, v.len());
    assert(v@.subrange(0, v@.len() as int) =~= v@);
    r
}

/// The state of a reader: the id for the next task, the date of the last date
/// header, and the tasks read so far.
struct Reader {
    next_id: usize,
    date: Option<Date>,
    tasks: Vec<TaskItem>,
}

impl Reader {
    spec fn state(&self) -> ParseState {
        ParseState { next_id: self.next_id as nat, date: self.date, tasks: views(self.tasks@) }
    }
}

/// Adds the task that a text makes (title, perhaps as a Markdown link).
fn add_titled(rd: &mut Reader, text: &Vec<char>, status: Status, star: Option<bool>)
    requires
        old(rd).next_id < usize::MAX,
    ensures
        final(rd).state() == with_task(old(rd).state(), titled_task(old(rd).state(), text@, status, star)),
{
    proof {
        lemma_first_link(text@, 0);
    }
    let (title, link) = match first_link(text) {
        Some(i) => {
            let n = text.len();
            assert(link_at(text@, i as int));
            assert(i < n);
            proof {
                lemma_find_bounds(text@, ']', i + 1);
            }
            let j = find_from_vec(text, ']', i + 1);
            proof {
                lemma_find_bounds(text@, ')', j + 2);
            }
            let m = find_from_vec(text, ')', j + 2);
            (string_of(text, i + 1, j), Some(string_of(text, j + 2, m)))
        },
        None => (string_of_vec(text), None),
    };
    let task = TaskItem::new(rd.next_id, title, status, rd.date, link, star);
    let ghost before = rd.state();
    rd.tasks.push(task);
    rd.next_id = rd.next_id + 1;
    assert(views(rd.tasks@) =~= before.tasks.push(task@));
}

/// Sets the date from a `## ` header line, or fails with the header's text.
fn header_exec(rd: &mut Reader, t: &Vec<char>) -> (r: Result<(), String>)
    ensures
        match header_step(old(rd).state(), t@) {
            Ok(s) => r is Ok && final(rd).state() == s,
            Err(e) => r matches Err(x) && x@ == e,
        },
{
    let hs = lit("## ");
    proof {
        reveal_strlit("## ");
    }
    assert(hs@ =~= header_start());
    if !starts_with_vec(t, &hs) {
        return Ok(());
    }
    let text = strip_prefixes_vec(t, &hs);
    let text_string = string_of_vec(&text);
    match parse_date(text_string.as_str()) {
        Ok(d) => {
            rd.date = Some(d);
            Ok(())
        },
        Err(_) => Err(text_string),
    }
}

/// Reads one line of the task file.
fn task_line_exec(rd: &mut Reader, line: &Vec<char>) -> (r: Result<(), String>)
    requires
        old(rd).next_id < usize::MAX,
    ensures
        match task_line_step(old(rd).state(), line@) {
            Ok(s) => r is Ok && final(rd).state() == s,
            Err(e) => r matches Err(x) && x@ == e,
        },
{
    let t = trim_vec(line);
    let ah = lit("## Active Tasks");
    proof {
        reveal_strlit("## Active Tasks");
    }
    assert(ah@ =~= active_header());
    if starts_with_vec(&t, &ah) {
        return Ok(());
    }
    header_exec(rd, &t)?;
    if !is_task_line_exec(&t) {
        return Ok(());
    }
    let k = ws_run_vec(&t, 1);
    let status = match status_of_char_exec(t[2 + k]) {
        Some(s) => s,
        None => Status::Todo,
    };
    let body = sub_vec(&t, 5 + k, t.len());
    let sm = lit(star_marker_text());
    let star = if starts_with_vec(&body, &sm) { Some(true) } else { None };
    let text = strip_prefixes_vec(&body, &sm);
    add_titled(rd, &text, status, star);
    Ok(())
}

/// The pieces of `s` split at `'\n'` from `pos` on are the first line from there and
/// the pieces after it.
proof fn lemma_split_at(s: Seq<char>, pos: int, e: int)
    requires
        0 <= pos <= s.len(),
        e == find_from(s, '\n', pos),
    ensures
        e < s.len() ==> split_lines(s.skip(pos)) == seq![s.subrange(pos, e)] + split_lines(s.skip(e + 1)),
        e >= s.len() ==> split_lines(s.skip(pos)) == seq![s.skip(pos)],
{
    lemma_find_shift(s, '\n', pos, pos);
    lemma_split_first(s.skip(pos));
    lemma_find_bounds(s, '\n', pos);
    if e < s.len() {
        assert(s.skip(pos).take(e - pos) =~= s.subrange(pos, e));
        assert(s.skip(pos).skip(e - pos + 1) =~= s.skip(e + 1));
    }
}

/// Adds the archived task that an entry line makes.
fn add_archived(rd: &mut Reader, t: &Vec<char>)
    requires
        old(rd).next_id < usize::MAX,
    ensures
        final(rd).state() == with_task(old(rd).state(), archived_task(old(rd).state(), t@)),
{
    proof {
        lemma_first_link(t@, 0);
    }
    let (title, link) = match first_link(t) {
        Some(i) => {
            let n = t.len();
            assert(link_at(t@, i as int));
            assert(i < n);
            proof {
                lemma_find_bounds(t@, ']', i + 1);
            }
            let j = find_from_vec(t, ']', i + 1);
            proof {
                lemma_find_bounds(t@, ')', j + 2);
            }
            let m = find_from_vec(t, ')', j + 2);
            (string_of(t, i + 1, j), Some(string_of(t, j + 2, m)))
        },
        None => {
            let es = lit("- ");
            proof {
                reveal_strlit("- ");
            }
            assert(es@ =~= entry_start());
            let rest = strip_prefixes_vec(t, &es);
            (string_of_vec(&rest), None)
        },
    };
    let task = TaskItem::new(rd.next_id, title, Status::Archived, rd.date, link, None);
    let ghost before = rd.state();
    rd.tasks.push(task);
    rd.next_id = rd.next_id + 1;
    assert(views(rd.tasks@) =~= before.tasks.push(task@));
}

/// Reads one line of an archive file.
fn archive_line_exec(rd: &mut Reader, line: &Vec<char>) -> (r: Result<(), String>)
    requires
        old(rd).next_id < usize::MAX,
    ensures
        match archive_line_step(old(rd).state(), line@) {
            Ok(s) => r is Ok && final(rd).state() == s,
            Err(e) => r matches Err(x) && x@ == e,
        },
{
    let t = trim_vec(line);
    header_exec(rd, &t)?;
    let es = lit("- ");
    proof {
        reveal_strlit("- ");
    }
    assert(es@ =~= entry_start());
    if rd.date.is_some() && starts_with_vec(&t, &es) {
        add_archived(rd, &t);
    }
    Ok(())
}

/// Reads one line of a file of the kind.
fn line_exec(kind: FileKind, rd: &mut Reader, line: &Vec<char>) -> (r: Result<(), String>)
    requires
        old(rd).next_id < usize::MAX,
    ensures
        match line_step(kind, old(rd).state(), line@) {
            Ok(s) => r is Ok && final(rd).state() == s,
            Err(e) => r matches Err(x) && x@ == e,
        },
{
    match kind {
        FileKind::TaskFile => task_line_exec(rd, line),
        FileKind::ArchiveFile => archive_line_exec(rd, line),
    }
}

/// Reads all lines of a file of the kind, ids counted from `starting_id`.
fn read_lines(kind: FileKind, content: &str, starting_id: usize) -> (r: Result<Reader, FiniError>)
    requires
        starting_id + split_lines(content@).len() <= usize::MAX,
    ensures
        r matches Ok(rd) ==> fold_lines(kind, split_lines(content@), start_state(starting_id as nat)) == Ok::<ParseState, Seq<char>>(rd.state()),
        r is Err ==> fold_lines(kind, split_lines(content@), start_state(starting_id as nat)) is Err,
        r matches Err(e) ==> (e matches FiniError::InvalidDate(text) && fold_lines(kind, split_lines(content@), start_state(starting_id as nat)) == Err::<ParseState, Seq<char>>(text@)),
{
    let cs = chars_of(content);
    let mut rd = Reader { next_id: starting_id, date: None, tasks: Vec::new() };
    let ghost mut done: Seq<Seq<char>> = Seq::empty();
    let mut pos: usize = 0;
    assert(cs@.skip(0) =~= cs@);
    assert(views(rd.tasks@) =~= Seq::<TaskView>::empty());
    loop
        invariant_except_break
            pos <= cs.len(),
            split_lines(cs@) == done + split_lines(cs@.skip(pos as int)),
            rd.next_id <= starting_id + done.len(),
            done.len() <= pos,
        invariant
            cs@ == content@,
            fold_lines(kind, done, start_state(starting_id as nat)) == Ok::<ParseState, Seq<char>>(rd.state()),
            starting_id + split_lines(cs@).len() <= usize::MAX,
        ensures
            split_lines(cs@) == done,
            fold_lines(kind, done, start_state(starting_id as nat)) == Ok::<ParseState, Seq<char>>(rd.state()),
        decreases cs.len() - pos,
    {
        let e = find_from_vec(&cs, '\n', pos);
        proof {
            lemma_find_bounds(cs@, '\n', pos as int);
            lemma_split_at(cs@, pos as int, e as int);
        }
        let line = sub_vec(&cs, pos, e);
        let ghost before = rd.state();
        let outcome = line_exec(kind, &mut rd, &line);
        let ghost new_done = done.push(line@);
        assert(new_done.drop_last() =~= done);
        assert(new_done.last() == line@);
        proof {
            if e < cs.len() {
                assert(split_lines(cs@) =~= new_done + split_lines(cs@.skip(e + 1)));
                assert(split_lines(cs@).subrange(0, new_done.len() as int) =~= new_done);
            } else {
                assert(split_lines(cs@) =~= new_done);
                assert(split_lines(cs@).subrange(0, new_done.len() as int) =~= new_done);
            }
        }
        match outcome {
            Ok(()) => {},
            Err(text) => {
                proof {
                    assert(fold_lines(kind, new_done, start_state(starting_id as nat)) == line_step(kind, before, line@));
                    lemma_fold_err_stays(kind, split_lines(cs@), new_done, start_state(starting_id as nat));
                }
                return Err(FiniError::InvalidDate(text));
            },
        }
        proof {
            done = new_done;
        }
        if e == cs.len() {
            assert(split_lines(cs@) =~= done);
            break;
        }
        pos = e + 1;
        assert(split_lines(cs@) =~= done + split_lines(cs@.skip(pos as int)));
    }
    Ok(rd)
}

/// Reads the task file's text: the tasks it holds, ids counted from `starting_id`
/// in file order, ordered for display (unfinished first, then starred first, then
/// by date, else in file order). Fails on a date header that is no date.
pub fn parse_markdown_tasks(content: &str, starting_id: usize) -> (r: Result<Vec<TaskItem>, FiniError>)
    requires
        starting_id + split_lines(content@).len() <= usize::MAX,
    ensures
        r matches Ok(v) ==> parse_tasks_result(content@, starting_id as nat) == Ok::<Seq<TaskView>, Seq<char>>(views(v@)),
        r is Err ==> parse_tasks_result(content@, starting_id as nat) is Err,
        r matches Err(e) ==> (e matches FiniError::InvalidDate(text) && parse_tasks_result(content@, starting_id as nat) == Err::<Seq<TaskView>, Seq<char>>(text@)),
{
    let rd = read_lines(FileKind::TaskFile, content, starting_id)?;
    let sorted = sort_tasks(rd.tasks, SortKey::DoneThenStarThenDate);
    Ok(sorted)
}

/// The archived tasks that an archive file's text holds, ids counted from `start` in
/// file order; an unreadable date header makes it fail, with the header's text.
pub open spec fn parse_archive_result(content: Seq<char>, start: nat) -> Result<Seq<TaskView>, Seq<char>> {
    match fold_lines(FileKind::ArchiveFile, split_lines(content), start_state(start)) {
        Ok(st) => Ok(st.tasks),
        Err(e) => Err(e),
    }
}

/// Reads an archive file's text: the archived tasks under its date headers (lines
/// before the first header are passed over), ids counted from `starting_id`. Fails
/// on a date header that is no date.
pub fn parse_markdown_archive_with_start_id(content: &str, starting_id: usize) -> (r: Result<Vec<TaskItem>, FiniError>)
    requires
        starting_id + split_lines(content@).len() <= usize::MAX,
    ensures
        r matches Ok(v) ==> parse_archive_result(content@, starting_id as nat) == Ok::<Seq<TaskView>, Seq<char>>(views(v@)),
        r is Err ==> parse_archive_result(content@, starting_id as nat) is Err,
        r matches Err(e) ==> (e matches FiniError::InvalidDate(text) && parse_archive_result(content@, starting_id as nat) == Err::<Seq<TaskView>, Seq<char>>(text@)),
{
    let rd = read_lines(FileKind::ArchiveFile, content, starting_id)?;
    Ok(rd.tasks)
}

/// Once reading has failed on some lines, it fails on any lines that start with them.
proof fn lemma_fold_err_stays(kind: FileKind, all: Seq<Seq<char>>, prefix: Seq<Seq<char>>, st: ParseState)
    requires
        prefix.len() <= all.len(),
        all.subrange(0, prefix.len() as int) == prefix,
        fold_lines(kind, prefix, st) is Err,
    ensures
        fold_lines(kind, all, st) == fold_lines(kind, prefix, st),
    decreases all.len(),
{
    if all.len() > prefix.len() {
        assert(all.drop_last().subrange(0, prefix.len() as int) =~= prefix);
        lemma_fold_err_stays(kind, all.drop_last(), prefix, st);
    } else {
        assert(all =~= prefix);
    }
}


/// What reading holds so far has only valid dates, and every archived task read
/// has one.
pub open spec fn state_dates_ok(kind: FileKind, st: ParseState) -> bool {
    &&& (st.date matches Some(d) ==> d.valid())
    &&& dates_valid(st.tasks)
    &&& (kind == FileKind::ArchiveFile ==> all_dated(st.tasks))
}

proof fn lemma_fold_dates(kind: FileKind, lines: Seq<Seq<char>>, st: ParseState)
    requires
        state_dates_ok(kind, st),
    ensures
        fold_lines(kind, lines, st) matches Ok(s) ==> state_dates_ok(kind, s),
    decreases lines.len(),
{
    if lines.len() > 0 {
        lemma_fold_dates(kind, lines.drop_last(), st);
        if let Ok(s) = fold_lines(kind, lines.drop_last(), st) {
            let line = lines.last();
            let t = trim(line);
            if let Ok(s1) = header_step(s, t) {
                assert(state_dates_ok(kind, s1));
                match kind {
                    FileKind::TaskFile => {
                        if !starts_with(t, active_header()) && is_task_line(t) {
                            let x = task_of_body(s1, line_status(t), line_body(t));
                            assert(x.active_date == s1.date);
                            let s2 = with_task(s1, x);
                            assert forall|i: int| 0 <= i < s2.tasks.len() implies date_ok(#[trigger] s2.tasks[i]) by {
                                if i < s1.tasks.len() {
                                    assert(s2.tasks[i] == s1.tasks[i]);
                                }
                            }
                        }
                    },
                    FileKind::ArchiveFile => {
                        if s1.date is Some && starts_with(t, entry_start()) {
                            let x = archived_task(s1, t);
                            let s2 = with_task(s1, x);
                            assert forall|i: int| 0 <= i < s2.tasks.len() implies dated_ok(#[trigger] s2.tasks[i]) by {
                                if i < s1.tasks.len() {
                                    assert(s2.tasks[i] == s1.tasks[i]);
                                }
                            }
                            assert forall|i: int| 0 <= i < s2.tasks.len() implies date_ok(#[trigger] s2.tasks[i]) by {
                                assert(dated_ok(s2.tasks[i]));
                            }
                        }
                    },
                }
            }
        }
    }
}

/// The tasks read from a task file have only valid dates.
pub proof fn lemma_read_tasks_dates(content: Seq<char>, start: nat)
    ensures
        parse_tasks_result(content, start) matches Ok(s) ==> dates_valid(s),
{
    let st = start_state(start);
    assert(dates_valid(st.tasks));
    assert(all_dated(st.tasks));
    lemma_fold_dates(FileKind::TaskFile, split_lines(content), st);
    if let Ok(f) = fold_lines(FileKind::TaskFile, split_lines(content), st) {
        let s = stable_sort(SortKey::DoneThenStarThenDate, f.tasks);
        lemma_stable_sort_members(SortKey::DoneThenStarThenDate, f.tasks);
        assert forall|i: int| 0 <= i < s.len() implies date_ok(#[trigger] s[i]) by {
            assert(s.contains(s[i]));
            let j = choose|j: int| 0 <= j < f.tasks.len() && f.tasks[j] == s[i];
            assert(date_ok(f.tasks[j]));
        }
    }
}

/// The tasks read from an archive file all have valid dates.
pub proof fn lemma_read_archive_dates(content: Seq<char>, start: nat)
    ensures
        parse_archive_result(content, start) matches Ok(s) ==> all_dated(s),
{
    let st = start_state(start);
    assert(dates_valid(st.tasks));
    assert(all_dated(st.tasks));
    lemma_fold_dates(FileKind::ArchiveFile, split_lines(content), st);
}

/// Law: a task file reads as the tasks of its lines, each as often as it is there,
/// ordered unfinished before done, then starred first, then by date, tasks that
/// agree on all three in the order of the file; it fails only where reading its
/// lines fails.
pub proof fn law_read_order(content: Seq<char>, start: nat)
    ensures
        match fold_lines(FileKind::TaskFile, split_lines(content), start_state(start)) {
            Ok(st) => parse_tasks_result(content, start) matches Ok(v)
                && ordered_from(SortKey::DoneThenStarThenDate, v, st.tasks),
            Err(e) => parse_tasks_result(content, start) == Err::<Seq<TaskView>, Seq<char>>(e),
        },
{
    match fold_lines(FileKind::TaskFile, split_lines(content), start_state(start)) {
        Ok(st) => law_stable_sort_orders(SortKey::DoneThenStarThenDate, st.tasks),
        Err(e) => {},
    }
}

} // verus!
