//! What reading gives back of what was written: the task file and the archive
//! files read back the tasks they were written from.

use vstd::prelude::*;
use crate::date::{Date, naive_date_text, lemma_date_text_shape, is_digit};
use crate::markdown::{
    active_header, header_start, date_header, date_of_text, task_line_step, header_step,
    is_task_line, line_status, line_body, body_start, status_of_char, task_of_body, titled_task,
    with_task, first_link_from, link_at, link_title, link_target, ParseState, FileKind, line_step,
    fold_lines, start_state, parse_tasks_result, task_body_lines, task_piece, last_date,
    task_file_lines, task_file_text, archive_lines, archive_piece, prev_archive_date,
    date_or_epoch, parse_archive_result, archive_line_step, archived_task, entry_start,
    archive_text_is, dated_ok,
};
use crate::commands::LinkFormat;
use crate::sort::{SortKey, stable_sort, sorted_by_key, date_le, lemma_stable_sort_sorted, lemma_stable_sort_members};
use crate::task_item::{Status, TaskView, fini_line, markdown_text, status_marker, star_marker};
use crate::text::{
    is_ws, trim, starts_with, strip_all_prefixes, find_from, ws_run, lacks, split_lines,
    join_lines, lemma_split_join, lemma_trim_plain, lemma_strip_none, lemma_strip_one,
};

verus! {

/// A title that the files can keep: not empty, no line break.
pub open spec fn plain_title(s: Seq<char>) -> bool {
    &&& s.len() >= 1
    &&& lacks(s, '\n')
}

/// A link that the files keep as it is: not empty, no line break, no `)`.
pub open spec fn plain_link(l: Seq<char>) -> bool {
    &&& l.len() >= 1
    &&& lacks(l, '\n')
    &&& lacks(l, ')')
}

/// A task whose title and link the files keep as they are: a plain title; with a
/// plain link, a title without `]` (which would end the link's title early);
/// without a link, a title that holds no Markdown link of its own and does not end
/// in whitespace (a line is read trimmed).
pub open spec fn plain_text(t: TaskView) -> bool {
    &&& plain_title(t.title)
    &&& match t.link {
        Some(l) => plain_link(l) && lacks(t.title, ']'),
        None => first_link_from(t.title, 0) is None && !is_ws(t.title.last()),
    }
}

/// A valid date that `chrono` reads back from the text it writes for it (what the
/// wrapper of `chrono`'s parser states of each text it is given).
pub open spec fn chrono_reads_back(d: Date) -> bool {
    &&& d.valid()
    &&& date_of_text(naive_date_text(d.year, d.month, d.day)) == Some(d)
}

/// A task that the task file keeps as it is: a plain title and link; a star that is
/// set or absent (the file has no mark for a star that is off); a title without a
/// link does not begin with `⭐️ `, and without a star it does not begin with
/// whitespace (the file takes a task line only where the text after the checkbox
/// begins with no whitespace); a date that `chrono` writes and reads back.
pub open spec fn plain_task(t: TaskView) -> bool {
    &&& plain_text(t)
    &&& t.star != Some(false)
    &&& (t.link is None ==> !starts_with(t.title, star_marker())
        && (t.star is None ==> t.title.len() >= 1 && !is_ws(t.title[0])))
    &&& (t.active_date matches Some(d) ==> chrono_reads_back(d))
}

/// The tasks with their ids counted from `start`.
pub open spec fn renumbered(s: Seq<TaskView>, start: nat) -> Seq<TaskView> {
    Seq::new(
        s.len(),
        |i: int|
            TaskView {
                id: start + i as nat,
                title: s[i].title,
                status: s[i].status,
                active_date: s[i].active_date,
                link: s[i].link,
                star: s[i].star,
            },
    )
}

/// The task as read back at the reader's state: its id and date are the reader's.
pub open spec fn as_read(st: ParseState, t: TaskView) -> TaskView {
    TaskView {
        id: st.next_id,
        title: t.title,
        status: t.status,
        active_date: st.date,
        link: t.link,
        star: t.star,
    }
}

proof fn lemma_find_to(s: Seq<char>, c: char, from: int, to: int)
    requires
        0 <= from <= to < s.len(),
        s[to] == c,
        forall|k: int| from <= k < to ==> s[k] != c,
    ensures
        find_from(s, c, from) == to,
    decreases to - from,
{
    if from < to {
        lemma_find_to(s, c, from + 1, to);
    }
}

proof fn lemma_find_prefix(p: Seq<char>, t: Seq<char>, c: char, from: int)
    requires
        0 <= from,
    ensures
        find_from(p + t, c, p.len() + from) == p.len() + find_from(t, c, from),
    decreases t.len() - from,
{
    if from < t.len() {
        assert((p + t)[p.len() + from] == t[from]);
        if t[from] != c {
            lemma_find_prefix(p, t, c, from + 1);
        }
    }
}

/// A link starts at a place of a text exactly where it starts at the same place
/// after a prefix.
proof fn lemma_link_at_shift(p: Seq<char>, t: Seq<char>, i: int)
    requires
        0 <= i,
    ensures
        link_at(p + t, p.len() + i) == link_at(t, i),
{
    let s = p + t;
    let n = p.len() as int;
    lemma_find_prefix(p, t, ']', i + 1);
    let jt = find_from(t, ']', i + 1);
    let js = find_from(s, ']', n + i + 1);
    assert(js == n + jt);
    if jt + 2 >= 0 {
        lemma_find_prefix(p, t, ')', jt + 2);
    }
    if i < t.len() {
        assert(s[n + i] == t[i]);
    }
    if 0 <= jt + 1 < t.len() {
        assert(s[js + 1] == t[jt + 1]);
    }
}

/// No link starts at or after `i` in a text if none does after a prefix either.
proof fn lemma_no_link_shift(p: Seq<char>, t: Seq<char>, i: int)
    requires
        0 <= i,
        first_link_from(t, i) is None,
    ensures
        first_link_from(p + t, p.len() + i) is None,
    decreases t.len() - i,
{
    if i < t.len() {
        lemma_link_at_shift(p, t, i);
        lemma_no_link_shift(p, t, i + 1);
    }
}

/// A prefix without `[` brings no link into a text that has none.
proof fn lemma_no_link_prefix(p: Seq<char>, t: Seq<char>, k: int)
    requires
        lacks(p, '['),
        0 <= k <= p.len(),
        first_link_from(t, 0) is None,
    ensures
        first_link_from(p + t, k) is None,
    decreases p.len() - k,
{
    if k == p.len() {
        lemma_no_link_shift(p, t, 0);
    } else {
        assert((p + t)[k] == p[k]);
        lemma_no_link_prefix(p, t, k + 1);
    }
}

proof fn lemma_not_starts(s: Seq<char>, p: Seq<char>, k: int)
    requires
        0 <= k < p.len(),
        k < s.len(),
        s[k] != p[k],
    ensures
        !starts_with(s, p),
{
    if starts_with(s, p) {
        assert(s.subrange(0, p.len() as int)[k] == s[k]);
    }
}

/// The Markdown form of a task's title and link reads back as that title and link.
proof fn lemma_markdown_reads_back(st: ParseState, t: TaskView, status: Status, star: Option<bool>)
    requires
        plain_text(t),
    ensures
        titled_task(st, markdown_text(t), status, star) == (TaskView {
            id: st.next_id,
            title: t.title,
            status,
            active_date: st.date,
            link: t.link,
            star,
        }),
{
    let md = markdown_text(t);
    match t.link {
        Some(l) => {
            let n = t.title.len() as int;
            assert(md =~= seq!['['] + t.title + seq![']', '('] + l + seq![')']);
            assert forall|k: int| 1 <= k < 1 + n implies md[k] != ']' by {
                assert(md[k] == t.title[k - 1]);
            }
            lemma_find_to(md, ']', 1, 1 + n);
            assert forall|k: int| 3 + n <= k < 3 + n + l.len() implies md[k] != ')' by {
                assert(md[k] == l[k - 3 - n]);
            }
            lemma_find_to(md, ')', 3 + n, 3 + n + l.len() as int);
            assert(link_at(md, 0));
            assert(first_link_from(md, 0) == Some(0int));
            assert(link_title(md, 0) =~= t.title);
            assert(link_target(md, 0) =~= l);
        },
        None => {},
    }
}

/// A task's line of the task file reads back as the task, with the reader's id and
/// date.
pub proof fn lemma_task_line_reads_back(st: ParseState, t: TaskView)
    requires
        plain_task(t),
    ensures
        task_line_step(st, fini_line(t)) == Ok::<ParseState, Seq<char>>(with_task(st, as_read(st, t))),
{
    let marker = status_marker(t.status);
    let sp = if t.star is Some { star_marker() } else { Seq::<char>::empty() };
    let md = markdown_text(t);
    let line = fini_line(t);
    assert(line =~= marker + sp + md);
    assert(md.len() >= 1);
    assert(sp.len() + md.len() >= 1);
    assert(line[0] == '-');
    assert(line.last() == md.last());
    assert(!is_ws(md.last())) by {
        if t.link is None {
            assert(md == t.title);
        }
    }
    lemma_trim_plain(line);
    assert(active_header()[0] == '#');
    lemma_not_starts(line, active_header(), 0);
    lemma_not_starts(line, header_start(), 0);
    assert(header_step(st, line) == Ok::<ParseState, Seq<char>>(st));
    // The task line pattern.
    assert(line[1] == ' ' && line[2] == '[');
    assert(ws_run(line, 2) == 0);
    assert(ws_run(line, 1) == 1);
    assert(body_start(line) == 6);
    let body = sp + md;
    assert(line_body(line) =~= body);
    assert(line[6] == body[0]);
    assert(!is_ws(body[0])) by {
        if t.star is Some {
            assert(body[0] == '\u{2b50}');
        } else if t.link is Some {
            assert(body[0] == md[0]);
        } else {
            assert(body[0] == t.title[0]);
        }
    }
    assert(status_of_char(line[3]) == Some(t.status));
    assert(is_task_line(line));
    assert(line_status(line) == t.status);
    // The star.
    if t.star is Some {
        assert(starts_with(body, star_marker())) by {
            assert(body.subrange(0, 3) =~= star_marker());
        }
        lemma_strip_one(star_marker(), md);
    } else {
        assert(body =~= md);
    }
    assert(!starts_with(md, star_marker())) by {
        if t.link is Some {
            lemma_not_starts(md, star_marker(), 0);
        }
    }
    lemma_strip_none(md, star_marker());
    assert(strip_all_prefixes(body, star_marker()) == md);
    assert(starts_with(body, star_marker()) == (t.star is Some)) by {
        if t.star is None {
            assert(body =~= md);
        }
    }
    let star = if starts_with(body, star_marker()) { Some(true) } else { None };
    assert(star == t.star);
    lemma_markdown_reads_back(st, t, t.status, star);
}


/// A blank line is passed over.
pub proof fn lemma_blank_line(kind: FileKind, st: ParseState)
    ensures
        line_step(kind, st, Seq::<char>::empty()) == Ok::<ParseState, Seq<char>>(st),
{
    let e = Seq::<char>::empty();
    assert(trim(e) =~= e);
}

/// A date header reads back as its date.
pub proof fn lemma_header_reads_back(kind: FileKind, st: ParseState, d: Date)
    requires
        chrono_reads_back(d),
    ensures
        line_step(kind, st, date_header(d)) == Ok::<ParseState, Seq<char>>(
            ParseState { next_id: st.next_id, date: Some(d), tasks: st.tasks },
        ),
{
    let y = naive_date_text(d.year, d.month, d.day);
    lemma_date_text_shape(d);
    let h = date_header(d);
    assert(h =~= header_start() + y);
    assert(h.last() == y.last());
    assert(!is_ws(h.last())) by {
        assert(is_digit(y.last()));
    }
    lemma_trim_plain(h);
    if h.len() >= 15 {
        assert(h[3] == y[0]);
        lemma_not_starts(h, active_header(), 3);
    } else {
        assert(!starts_with(h, active_header()));
    }
    assert(starts_with(h, header_start())) by {
        assert(h.subrange(0, 3) =~= header_start());
    }
    lemma_strip_one(header_start(), y);
    lemma_not_starts(y, header_start(), 0);
    lemma_strip_none(y, header_start());
    assert(!is_task_line(h));
    assert(!starts_with(h, seq!['-', ' '])) by {
        lemma_not_starts(h, seq!['-', ' '], 0);
    }
}

/// Reading `a` then `b` is reading `a + b`.
pub proof fn lemma_fold_append(kind: FileKind, a: Seq<Seq<char>>, b: Seq<Seq<char>>, st: ParseState)
    ensures
        fold_lines(kind, a + b, st) == (match fold_lines(kind, a, st) {
            Ok(s) => fold_lines(kind, b, s),
            Err(e) => Err(e),
        }),
    decreases b.len(),
{
    if b.len() == 0 {
        assert(a + b =~= a);
    } else {
        assert((a + b).drop_last() =~= a + b.drop_last());
        lemma_fold_append(kind, a, b.drop_last(), st);
    }
}

/// Reading a few lines one by one.
proof fn lemma_fold_three(kind: FileKind, x: Seq<char>, y: Seq<char>, z: Seq<char>, st: ParseState)
    ensures
        fold_lines(kind, seq![x, y, z], st) == (match line_step(kind, st, x) {
            Ok(s1) => match line_step(kind, s1, y) {
                Ok(s2) => line_step(kind, s2, z),
                Err(e) => Err(e),
            },
            Err(e) => Err(e),
        }),
{
    reveal_with_fuel(fold_lines, 4);
    assert(seq![x, y, z].drop_last() =~= seq![x, y]);
    assert(seq![x, y].drop_last() =~= seq![x]);
    assert(seq![x].drop_last() =~= Seq::<Seq<char>>::empty());
}

proof fn lemma_fold_one(kind: FileKind, x: Seq<char>, st: ParseState)
    ensures
        fold_lines(kind, seq![x], st) == line_step(kind, st, x),
{
    reveal_with_fuel(fold_lines, 2);
    assert(seq![x].drop_last() =~= Seq::<Seq<char>>::empty());
}

/// The body of the task file, written from tasks in date order, reads back as the
/// tasks with their ids counted on.
proof fn lemma_body_reads_back(s: Seq<TaskView>, start: nat)
    requires
        sorted_by_key(SortKey::ByDate, s),
        forall|i: int| 0 <= i < s.len() ==> plain_task(#[trigger] s[i]),
    ensures
        fold_lines(FileKind::TaskFile, task_body_lines(s), start_state(start)) == Ok::<ParseState, Seq<char>>(
            ParseState { next_id: start + s.len(), date: last_date(s), tasks: renumbered(s, start) },
        ),
    decreases s.len(),
{
    if s.len() == 0 {
        assert(renumbered(s, start) =~= Seq::<TaskView>::empty());
    } else {
        let init = s.drop_last();
        let t = s.last();
        assert forall|i: int, j: int| 0 <= i < j < init.len() implies crate::sort::key_le(
            SortKey::ByDate,
            #[trigger] init[i],
            #[trigger] init[j],
        ) by {
            assert(init[i] == s[i] && init[j] == s[j]);
        }
        assert forall|i: int| 0 <= i < init.len() implies plain_task(#[trigger] init[i]) by {
            assert(init[i] == s[i]);
        }
        lemma_body_reads_back(init, start);
        let st = ParseState { next_id: start + init.len(), date: last_date(init), tasks: renumbered(init, start) };
        lemma_fold_append(FileKind::TaskFile, task_body_lines(init), task_piece(last_date(init), t), start_state(start));
        assert(plain_task(t));
        let expected = ParseState { next_id: start + s.len(), date: last_date(s), tasks: renumbered(s, start) };
        match t.active_date {
            Some(d) => {
                let s2 = ParseState { next_id: st.next_id, date: Some(d), tasks: st.tasks };
                if last_date(init) != Some(d) {
                    assert(task_piece(last_date(init), t) =~= seq![Seq::<char>::empty(), date_header(d), fini_line(t)]);
                    lemma_fold_three(FileKind::TaskFile, Seq::<char>::empty(), date_header(d), fini_line(t), st);
                    lemma_blank_line(FileKind::TaskFile, st);
                    lemma_header_reads_back(FileKind::TaskFile, st, d);
                    lemma_task_line_reads_back(s2, t);
                    assert(with_task(s2, as_read(s2, t)).tasks =~= renumbered(s, start));
                } else {
                    assert(task_piece(last_date(init), t) =~= seq![fini_line(t)]);
                    lemma_fold_one(FileKind::TaskFile, fini_line(t), st);
                    lemma_task_line_reads_back(st, t);
                    assert(with_task(st, as_read(st, t)).tasks =~= renumbered(s, start));
                }
            },
            None => {
                if init.len() > 0 {
                    assert(crate::sort::key_le(SortKey::ByDate, s[init.len() - 1], s[init.len() as int]));
                    assert(init.last() == s[init.len() - 1]);
                }
                assert(last_date(init) is None);
                assert(task_piece(last_date(init), t) =~= seq![fini_line(t)]);
                lemma_fold_one(FileKind::TaskFile, fini_line(t), st);
                lemma_task_line_reads_back(st, t);
                assert(with_task(st, as_read(st, t)).tasks =~= renumbered(s, start));
            },
        }
    }
}

/// Law: the task file reads back what was written to it. Tasks whose titles and
/// links the file keeps as they are (see `plain_task`) come back with their titles,
/// links, statuses, stars and dates; their ids are counted from `start` in the order
/// of the file (by date, undated first), and they come in the order the program
/// shows them (unfinished first, then starred first, then by date).
pub proof fn law_task_file_round_trip(tasks: Seq<TaskView>, start: nat)
    requires
        forall|i: int| 0 <= i < tasks.len() ==> plain_task(#[trigger] tasks[i]),
    ensures
        parse_tasks_result(task_file_text(tasks), start) == Ok::<Seq<TaskView>, Seq<char>>(
            stable_sort(
                SortKey::DoneThenStarThenDate,
                renumbered(stable_sort(SortKey::ByDate, tasks), start),
            ),
        ),
{
    let sorted = stable_sort(SortKey::ByDate, tasks);
    lemma_stable_sort_sorted(SortKey::ByDate, tasks);
    lemma_stable_sort_members(SortKey::ByDate, tasks);
    assert forall|i: int| 0 <= i < sorted.len() implies plain_task(#[trigger] sorted[i]) by {
        assert(sorted.contains(sorted[i]));
    }
    let lines = task_file_lines(tasks);
    assert forall|i: int| 0 <= i < lines.len() implies lacks(#[trigger] lines[i], '\n') by {
        lemma_body_lines_plain(sorted);
        if i > 0 {
            assert(lines[i] == task_body_lines(sorted)[i - 1]);
        }
    }
    lemma_split_join(lines);
    lemma_fold_append(FileKind::TaskFile, seq![active_header()], task_body_lines(sorted), start_state(start));
    lemma_fold_one(FileKind::TaskFile, active_header(), start_state(start));
    assert(trim(active_header()) == active_header()) by {
        lemma_trim_plain(active_header());
    }
    assert(starts_with(active_header(), active_header())) by {
        assert(active_header().subrange(0, 15) =~= active_header());
    }
    lemma_body_reads_back(sorted, start);
}

/// No line that the tasks fill the task file with holds a line break.
proof fn lemma_body_lines_plain(s: Seq<TaskView>)
    requires
        forall|i: int| 0 <= i < s.len() ==> plain_task(#[trigger] s[i]),
    ensures
        forall|i: int| 0 <= i < task_body_lines(s).len() ==> lacks(#[trigger] task_body_lines(s)[i], '\n'),
    decreases s.len(),
{
    if s.len() > 0 {
        let init = s.drop_last();
        assert forall|i: int| 0 <= i < init.len() implies plain_task(#[trigger] init[i]) by {
            assert(init[i] == s[i]);
        }
        lemma_body_lines_plain(init);
        let t = s.last();
        assert(plain_task(t));
        let piece = task_piece(last_date(init), t);
        assert(lacks(fini_line(t), '\n')) by {
            lemma_fini_line_plain(t);
        }
        if let Some(d) = t.active_date {
            lemma_date_text_shape(d);
            let h = date_header(d);
            assert(h =~= header_start() + naive_date_text(d.year, d.month, d.day));
            assert forall|k: int| 0 <= k < h.len() implies #[trigger] h[k] != '\n' by {
                if k >= 3 {
                    assert(h[k] == naive_date_text(d.year, d.month, d.day)[k - 3]);
                }
            }
        }
        let all = task_body_lines(s);
        assert(all =~= task_body_lines(init) + piece);
        assert forall|i: int| 0 <= i < all.len() implies lacks(#[trigger] all[i], '\n') by {
            if i < task_body_lines(init).len() {
                assert(all[i] == task_body_lines(init)[i]);
            } else {
                assert(all[i] == piece[i - task_body_lines(init).len()]);
            }
        }
    }
}

/// A plain task's line holds no line break.
proof fn lemma_fini_line_plain(t: TaskView)
    requires
        plain_text(t),
    ensures
        lacks(fini_line(t), '\n'),
{
    let marker = status_marker(t.status);
    let sp = if t.star is Some { star_marker() } else { Seq::<char>::empty() };
    let md = markdown_text(t);
    let line = fini_line(t);
    assert(line =~= marker + sp + md);
    assert forall|k: int| 0 <= k < line.len() implies #[trigger] line[k] != '\n' by {
        if k < marker.len() + sp.len() {
        } else {
            let j = k - marker.len() - sp.len();
            assert(line[k] == md[j]);
            match t.link {
                Some(l) => {
                    assert(md =~= seq!['['] + t.title + seq![']', '('] + l + seq![')']);
                    if 1 <= j < 1 + t.title.len() {
                        assert(md[j] == t.title[j - 1]);
                    } else if 3 + t.title.len() <= j < 3 + t.title.len() + l.len() {
                        assert(md[j] == l[j - 3 - t.title.len()]);
                    }
                },
                None => {},
            }
        }
    }
}


/// The tasks' Markdown texts (`[title](link)`, or the title).
pub open spec fn markdown_texts(s: Seq<TaskView>) -> Seq<Seq<char>> {
    Seq::new(s.len(), |i: int| markdown_text(s[i]))
}

/// The text of an archive file for the tasks: ordered by date, each task as its
/// Markdown text.
pub open spec fn archive_file_text(tasks: Seq<TaskView>) -> Seq<char> {
    let sorted = stable_sort(SortKey::ByDate, tasks);
    join_lines(archive_lines(sorted, markdown_texts(sorted)))
}

/// The task as it is archived: archived, without a star.
pub open spec fn archived_form(t: TaskView) -> TaskView {
    TaskView {
        id: t.id,
        title: t.title,
        status: Status::Archived,
        active_date: t.active_date,
        link: t.link,
        star: None,
    }
}

/// The archived forms of the tasks, with ids counted from `start`.
pub open spec fn archived_renumbered(s: Seq<TaskView>, start: nat) -> Seq<TaskView> {
    Seq::new(
        s.len(),
        |i: int|
            TaskView {
                id: start + i as nat,
                title: s[i].title,
                status: Status::Archived,
                active_date: s[i].active_date,
                link: s[i].link,
                star: None,
            },
    )
}

/// A task whose entry an archive file keeps as it is: a plain title and link, and a
/// title without a link does not begin with `- ` (the entry's own start).
pub open spec fn plain_entry(t: TaskView) -> bool {
    &&& plain_text(t)
    &&& (t.link is None ==> !starts_with(t.title, entry_start()))
}

/// A task that an archive file keeps as it is: a plain entry with a date that
/// `chrono` writes and reads back.
pub open spec fn plain_archived(t: TaskView) -> bool {
    &&& plain_entry(t)
    &&& t.active_date matches Some(d) && chrono_reads_back(d)
}

/// An archive entry line reads back as the archived task, with the reader's id and
/// date.
proof fn lemma_entry_reads_back(st: ParseState, t: TaskView)
    requires
        plain_entry(t),
        st.date is Some,
    ensures
        archive_line_step(st, seq!['-', ' '] + markdown_text(t)) == Ok::<ParseState, Seq<char>>(
            with_task(st, archived_form(as_read(st, t))),
        ),
{
    let md = markdown_text(t);
    let line = seq!['-', ' '] + md;
    assert(md.len() >= 1);
    assert(line.last() == md.last());
    assert(!is_ws(md.last())) by {
        if t.link is None {
            assert(md == t.title);
        }
    }
    lemma_trim_plain(line);
    lemma_not_starts(line, header_start(), 0);
    assert(starts_with(line, entry_start())) by {
        assert(line.subrange(0, 2) =~= entry_start());
    }
    let read = archived_task(st, line);
    match t.link {
        Some(l) => {
            let n = t.title.len() as int;
            assert(line =~= seq!['-', ' ', '['] + t.title + seq![']', '('] + l + seq![')']);
            assert forall|k: int| 3 <= k < 3 + n implies line[k] != ']' by {
                assert(line[k] == t.title[k - 3]);
            }
            lemma_find_to(line, ']', 3, 3 + n);
            assert forall|k: int| 5 + n <= k < 5 + n + l.len() implies line[k] != ')' by {
                assert(line[k] == l[k - 5 - n]);
            }
            lemma_find_to(line, ')', 5 + n, 5 + n + l.len() as int);
            assert(!link_at(line, 0));
            assert(!link_at(line, 1));
            assert(link_at(line, 2));
            assert(first_link_from(line, 2) == Some(2int));
            assert(first_link_from(line, 1) == Some(2int));
            assert(first_link_from(line, 0) == Some(2int));
            assert(link_title(line, 2) =~= t.title);
            assert(link_target(line, 2) =~= l);
        },
        None => {
            assert(line =~= seq!['-', ' '] + t.title);
            lemma_no_link_prefix(seq!['-', ' '], t.title, 0);
            lemma_strip_one(entry_start(), t.title);
            lemma_strip_none(t.title, entry_start());
        },
    }
}

/// The lines of an archive file, written from dated tasks, read back as the archived
/// tasks with their ids counted on.
proof fn lemma_archive_body_reads_back(s: Seq<TaskView>, start: nat)
    requires
        forall|i: int| 0 <= i < s.len() ==> plain_archived(#[trigger] s[i]),
    ensures
        fold_lines(FileKind::ArchiveFile, archive_lines(s, markdown_texts(s)), start_state(start)) == Ok::<ParseState, Seq<char>>(
            ParseState {
                next_id: start + s.len(),
                date: prev_archive_date(s),
                tasks: archived_renumbered(s, start),
            },
        ),
    decreases s.len(),
{
    if s.len() == 0 {
        assert(archived_renumbered(s, start) =~= Seq::<TaskView>::empty());
    } else {
        let init = s.drop_last();
        let t = s.last();
        assert forall|i: int| 0 <= i < init.len() implies plain_archived(#[trigger] init[i]) by {
            assert(init[i] == s[i]);
        }
        lemma_archive_body_reads_back(init, start);
        assert(markdown_texts(s).drop_last() =~= markdown_texts(init));
        assert(markdown_texts(s).last() == markdown_text(t));
        let st = ParseState {
            next_id: start + init.len(),
            date: prev_archive_date(init),
            tasks: archived_renumbered(init, start),
        };
        let piece = archive_piece(prev_archive_date(init), t, markdown_text(t));
        lemma_fold_append(FileKind::ArchiveFile, archive_lines(init, markdown_texts(init)), piece, start_state(start));
        assert(plain_archived(t));
        let d = date_or_epoch(t);
        let entry = seq!['-', ' '] + markdown_text(t);
        if Some(d) != prev_archive_date(init) {
            let s2 = ParseState { next_id: st.next_id, date: Some(d), tasks: st.tasks };
            assert(piece =~= seq![Seq::<char>::empty(), date_header(d), entry]);
            lemma_fold_three(FileKind::ArchiveFile, Seq::<char>::empty(), date_header(d), entry, st);
            lemma_blank_line(FileKind::ArchiveFile, st);
            lemma_header_reads_back(FileKind::ArchiveFile, st, d);
            lemma_entry_reads_back(s2, t);
            assert(with_task(s2, archived_form(as_read(s2, t))).tasks =~= archived_renumbered(s, start));
        } else {
            assert(init.len() > 0);
            assert(piece =~= seq![entry]);
            lemma_fold_one(FileKind::ArchiveFile, entry, st);
            lemma_entry_reads_back(st, t);
            assert(with_task(st, archived_form(as_read(st, t))).tasks =~= archived_renumbered(s, start));
        }
    }
}

/// Law: an archive file reads back what was written to it. Dated tasks whose titles
/// and links the file keeps (see `plain_archived`) come back archived and without a
/// star, with their titles, links and dates, ordered by date, their ids counted from
/// `start`.
pub proof fn law_archive_file_round_trip(tasks: Seq<TaskView>, start: nat)
    requires
        forall|i: int| 0 <= i < tasks.len() ==> plain_archived(#[trigger] tasks[i]),
    ensures
        parse_archive_result(archive_file_text(tasks), start) == Ok::<Seq<TaskView>, Seq<char>>(
            archived_renumbered(stable_sort(SortKey::ByDate, tasks), start),
        ),
{
    let sorted = stable_sort(SortKey::ByDate, tasks);
    lemma_stable_sort_members(SortKey::ByDate, tasks);
    assert forall|i: int| 0 <= i < sorted.len() implies plain_archived(#[trigger] sorted[i]) by {
        assert(sorted.contains(sorted[i]));
    }
    let lines = archive_lines(sorted, markdown_texts(sorted));
    lemma_archive_lines_plain(sorted);
    if lines.len() == 0 {
        assert(join_lines(lines) =~= Seq::<char>::empty());
        assert(split_lines(Seq::<char>::empty()) =~= seq![Seq::<char>::empty()]);
        lemma_fold_one(FileKind::ArchiveFile, Seq::<char>::empty(), start_state(start));
        lemma_blank_line(FileKind::ArchiveFile, start_state(start));
        lemma_archive_body_reads_back(sorted, start);
    } else {
        lemma_split_join(lines);
        lemma_archive_body_reads_back(sorted, start);
    }
}

/// No line of an archive file written from plain tasks holds a line break.
proof fn lemma_archive_lines_plain(s: Seq<TaskView>)
    requires
        forall|i: int| 0 <= i < s.len() ==> plain_archived(#[trigger] s[i]),
    ensures
        forall|i: int| 0 <= i < archive_lines(s, markdown_texts(s)).len() ==> lacks(#[trigger] archive_lines(s, markdown_texts(s))[i], '\n'),
        archive_lines(s, markdown_texts(s)).len() == 0 ==> s.len() == 0,
    decreases s.len(),
{
    if s.len() > 0 {
        let init = s.drop_last();
        assert forall|i: int| 0 <= i < init.len() implies plain_archived(#[trigger] init[i]) by {
            assert(init[i] == s[i]);
        }
        lemma_archive_lines_plain(init);
        assert(markdown_texts(s).drop_last() =~= markdown_texts(init));
        let t = s.last();
        assert(plain_archived(t));
        let d = date_or_epoch(t);
        let md = markdown_text(t);
        let entry = seq!['-', ' '] + md;
        lemma_fini_line_plain(t);
        let line = fini_line(t);
        let marker = status_marker(t.status);
        let sp = if t.star is Some { star_marker() } else { Seq::<char>::empty() };
        assert(line =~= marker + sp + md);
        assert forall|k: int| 0 <= k < entry.len() implies #[trigger] entry[k] != '\n' by {
            if k >= 2 {
                assert(entry[k] == md[k - 2]);
                assert(md[k - 2] == line[k - 2 + marker.len() + sp.len()]);
            }
        }
        lemma_date_text_shape(d);
        let h = date_header(d);
        assert(h =~= header_start() + naive_date_text(d.year, d.month, d.day));
        assert forall|k: int| 0 <= k < h.len() implies #[trigger] h[k] != '\n' by {
            if k >= 3 {
                assert(h[k] == naive_date_text(d.year, d.month, d.day)[k - 3]);
            }
        }
        let piece = archive_piece(prev_archive_date(init), t, md);
        let all = archive_lines(s, markdown_texts(s));
        let before = archive_lines(init, markdown_texts(init));
        assert(all =~= before + piece);
        assert forall|i: int| 0 <= i < all.len() implies lacks(#[trigger] all[i], '\n') by {
            if i < before.len() {
                assert(all[i] == before[i]);
            } else {
                assert(all[i] == piece[i - before.len()]);
            }
        }
    }
}

/// What an archive listing in the Markdown link format holds: the archive file text.
pub proof fn lemma_markdown_archive_text(s: Seq<TaskView>, texts: Seq<Seq<char>>, out: Seq<char>)
    requires
        archive_text_is(s, LinkFormat::Markdown, texts, out),
    ensures
        out == join_lines(archive_lines(s, markdown_texts(s))),
{
    assert(texts =~= markdown_texts(s));
}

/// Law: an empty file holds no tasks, as a task file and as an archive file.
pub proof fn law_empty_text_reads_empty(start: nat)
    ensures
        parse_tasks_result(Seq::<char>::empty(), start) == Ok::<Seq<TaskView>, Seq<char>>(Seq::empty()),
        parse_archive_result(Seq::<char>::empty(), start) == Ok::<Seq<TaskView>, Seq<char>>(Seq::empty()),
{
    let e = Seq::<char>::empty();
    assert(split_lines(e) =~= seq![e]);
    lemma_fold_one(FileKind::TaskFile, e, start_state(start));
    lemma_fold_one(FileKind::ArchiveFile, e, start_state(start));
    lemma_blank_line(FileKind::TaskFile, start_state(start));
    lemma_blank_line(FileKind::ArchiveFile, start_state(start));
    assert(stable_sort(SortKey::DoneThenStarThenDate, Seq::<TaskView>::empty()) =~= Seq::<TaskView>::empty());
}

} // verus!
