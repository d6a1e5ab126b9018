//! The interactive session over a single task list: its menu, what it shows each
//! time round, and what each command of the menu does to the list.

use vstd::prelude::*;
use crate::paint::{painted, green, dimmed, green_code, dimmed_code};
use crate::task_item::{TaskItem, TaskView, views};
use crate::util::{texts, lit_string, visible, list_lines, no_tasks_text};
use crate::commands::{LinkFormat, link_question, clear_question};
use crate::actions::{
    Actions, archive_listing, toggle_each, ids_where, dated_as, ids_text, copied_ids_prefix, cleared_in_place,
    in_progress_copies, list_edited, list_edit_outcome, get_task_ids_for_date, same_dates,
};
use crate::copier::{Copier, CopyPayload, PayloadView, TextPayload};
use crate::date::Date;
use crate::error::FiniError;
use crate::markdown::{dates_valid, date_ok};
use crate::printer::{Printer, printed_lines, print_all};
use crate::prompter::{Prompter, text_reply, positions_reply};
use crate::sort::{SortKey, stable_sort};
use crate::task_item::{Status, status_parts, status_line_string};
use crate::util::{
    Toggle, toggled, max_id, next_id_of, new_task, added_prefix, with_ids, without_ids, adjacent_texts, join_with,
    find_index, lemma_find_index, starred_text, none_selected_text, cleared_text, visible_items, trimmed,
    joined_message, lemma_push_dates, lemma_update_dates, lemma_filter_dates, lemma_filter_members,
    max_task_id,
};

verus! {

/// The commands of the session's menu.
#[derive(Clone, Copy, Debug, PartialEq, Eq, Structural)]
pub enum SessionCommand {
    Quit,
    List,
    Add,
    Check,
    Begin,
    Star,
    Copy,
    CopyDate,
    CopyChecked,
    Clear,
    Delete,
    Edit,
    ListArchived,
    /// An answer that is no entry of the menu.
    Unknown,
}

/// The entries of the session's menu, in order.
pub open spec fn session_entries() -> Seq<Seq<char>> {
    seq![
        seq!['q', 'u', 'i', 't'],
        seq!['l', 'i', 's', 't'],
        seq!['a', 'd', 'd'],
        seq!['c', 'h', 'e', 'c', 'k'],
        seq!['b', 'e', 'g', 'i', 'n'],
        seq!['s', 't', 'a', 'r'],
        seq!['c', 'o', 'p', 'y'],
        seq!['c', 'o', 'p', 'y', '-', 'd', 'a', 't', 'e'],
        seq!['c', 'o', 'p', 'y', '-', 'c', 'h', 'e', 'c', 'k', 'e', 'd'],
        seq!['c', 'l', 'e', 'a', 'r'],
        seq!['d', 'e', 'l', 'e', 't', 'e'],
        seq!['e', 'd', 'i', 't'],
        seq!['l', 'i', 's', 't', '-', 'a', 'r', 'c', 'h', 'i', 'v', 'e', 'd'],
    ]
}

/// The session's menu.
pub fn session_menu() -> (r: Vec<String>)
    ensures
        texts(r@) == session_entries(),
{
    let mut r: Vec<String> = Vec::new();
    r.push(lit_string("quit"));
    r.push(lit_string("list"));
    r.push(lit_string("add"));
    r.push(lit_string("check"));
    r.push(lit_string("begin"));
    r.push(lit_string("star"));
    r.push(lit_string("copy"));
    r.push(lit_string("copy-date"));
    r.push(lit_string("copy-checked"));
    r.push(lit_string("clear"));
    r.push(lit_string("delete"));
    r.push(lit_string("edit"));
    r.push(lit_string("list-archived"));
    proof {
        reveal_strlit("quit");
        reveal_strlit("list");
        reveal_strlit("add");
        reveal_strlit("check");
        reveal_strlit("begin");
        reveal_strlit("star");
        reveal_strlit("copy");
        reveal_strlit("copy-date");
        reveal_strlit("copy-checked");
        reveal_strlit("clear");
        reveal_strlit("delete");
        reveal_strlit("edit");
        reveal_strlit("list-archived");
    }
    assert(texts(r@) =~~= session_entries());
    r
}

/// The command an answer from the menu names.
pub open spec fn session_command_for(answer: Seq<char>) -> SessionCommand {
    let m = session_entries();
    if answer == m[0] {
        SessionCommand::Quit
    } else if answer == m[1] {
        SessionCommand::List
    } else if answer == m[2] {
        SessionCommand::Add
    } else if answer == m[3] {
        SessionCommand::Check
    } else if answer == m[4] {
        SessionCommand::Begin
    } else if answer == m[5] {
        SessionCommand::Star
    } else if answer == m[6] {
        SessionCommand::Copy
    } else if answer == m[7] {
        SessionCommand::CopyDate
    } else if answer == m[8] {
        SessionCommand::CopyChecked
    } else if answer == m[9] {
        SessionCommand::Clear
    } else if answer == m[10] {
        SessionCommand::Delete
    } else if answer == m[11] {
        SessionCommand::Edit
    } else if answer == m[12] {
        SessionCommand::ListArchived
    } else {
        SessionCommand::Unknown
    }
}

/// The command an answer from the menu names.
pub fn session_command(answer: &str) -> (r: SessionCommand)
    ensures
        r == session_command_for(answer@),
{
    let menu = session_menu();
    let a = String::from_str(answer);
    proof {
        assert(texts(menu@).len() == menu@.len());
        assert(menu@.len() == 13);
        assert(forall|k: int| 0 <= k < 13 ==> #[trigger] texts(menu@)[k] == menu@[k]@);
    }
    if a == menu[0] {
        SessionCommand::Quit
    } else if a == menu[1] {
        SessionCommand::List
    } else if a == menu[2] {
        SessionCommand::Add
    } else if a == menu[3] {
        SessionCommand::Check
    } else if a == menu[4] {
        SessionCommand::Begin
    } else if a == menu[5] {
        SessionCommand::Star
    } else if a == menu[6] {
        SessionCommand::Copy
    } else if a == menu[7] {
        SessionCommand::CopyDate
    } else if a == menu[8] {
        SessionCommand::CopyChecked
    } else if a == menu[9] {
        SessionCommand::Clear
    } else if a == menu[10] {
        SessionCommand::Delete
    } else if a == menu[11] {
        SessionCommand::Edit
    } else if a == menu[12] {
        SessionCommand::ListArchived
    } else {
        SessionCommand::Unknown
    }
}

/// The rule the session draws above and below the list: forty-one dashes.
pub open spec fn rule_text() -> Seq<char> {
    Seq::new(41, |i: int| '-')
}

/// What the session shows each time round: a green rule, the list (`No tasks` if
/// it shows none), and a dimmed rule.
pub fn session_header(items: &Vec<TaskItem>) -> (r: Vec<String>)
    ensures
        texts(r@).len() >= 2,
        painted(texts(r@)[0], green_code(), rule_text()),
        painted(texts(r@).last(), dimmed_code(), rule_text()),
        visible(views(items@)).len() == 0 ==> texts(r@).subrange(1, r@.len() - 1) == seq![no_tasks_text()],
        visible(views(items@)).len() > 0 ==> list_lines(visible(views(items@)), LinkFormat::AdjacentColor,
            texts(r@).subrange(1, r@.len() - 1)),
{
    let rule = "-----------------------------------------";
    proof {
        reveal_strlit("-----------------------------------------");
    }
    assert(rule@ =~= rule_text());
    let mut r: Vec<String> = Vec::new();
    r.push(green(rule));
    let list = Actions::list(items);
    let mut k: usize = 0;
    while k < list.len()
        invariant
            k <= list.len(),
            r.len() == k + 1,
            painted(texts(r@)[0], green_code(), rule_text()),
            texts(r@).subrange(1, k + 1) == texts(list@).take(k as int),
        decreases list.len() - k,
    {
        r.push(list[k].clone());
        assert(texts(r@).subrange(1, k + 2) =~= texts(list@).take(k + 1));
        k += 1;
    }
    assert(texts(list@).take(k as int) =~= texts(list@));
    let ghost before = texts(r@);
    r.push(dimmed(rule));
    assert(texts(r@).subrange(1, r@.len() - 1) =~= before.subrange(1, k + 1));
    r
}

// ---------------------------------------------------------------------------
// One command of the session

/// The ids of the tasks at the chosen positions of `vis`, in the order chosen.
pub open spec fn chosen_ids(vis: Seq<TaskView>, sel: Seq<usize>) -> Seq<usize> {
    Seq::new(sel.len(), |k: int| vis[sel[k] as int].id as usize)
}

/// Every chosen position is one of the `n` offered.
pub open spec fn chosen_within(sel: Seq<usize>, n: nat) -> bool {
    forall|k: int| 0 <= k < sel.len() ==> #[trigger] sel[k] < n
}

/// The text that copying the tasks with the ids copies: each task's title and link,
/// in the list's order, one per line.
pub open spec fn copy_text_of(s: Seq<TaskView>, ids: Seq<usize>) -> Seq<char> {
    join_with(adjacent_texts(with_ids(s, ids)), seq!['\n'])
}

/// What copying the tasks of `s` with the ids did: the place holds their text and
/// the ids were printed, or copying failed and nothing was printed.
pub open spec fn copied_ids<C: Copier>(s: Seq<TaskView>, ids: Seq<usize>, c1: C, p0: Seq<char>, p1: Seq<char>, r: Result<bool, FiniError>) -> bool {
    ||| (r matches Ok(b) && b) && c1.holds(PayloadView::Text(copy_text_of(s, ids)))
        && p1 == p0 + copied_ids_prefix() + ids_text(ids) + seq!['\n']
    ||| (r matches Err(e) && e is Clipboard) && p1 == p0
}

/// The ids of the tasks dated `date`, in their order.
pub open spec fn ids_on(s: Seq<TaskView>, date: Seq<char>) -> Seq<usize> {
    ids_where(s, |t: TaskView| dated_as(t, date))
}

/// The ids of the tasks done or in progress, in their order.
pub open spec fn checked_ids(s: Seq<TaskView>) -> Seq<usize> {
    ids_where(s, |t: TaskView| t.status == Status::Done || t.status == Status::InProgress)
}

/// The list cleared in place: done tasks archived, tasks in progress back to do,
/// and an archived copy of each task in progress added under the next ids.
pub open spec fn cleared_list(s: Seq<TaskView>) -> Seq<TaskView> {
    s.map_values(|t: TaskView| cleared_in_place(t)) + in_progress_copies(s, next_id_of(s))
}

/// What editing the task with the id did (see `Actions::edit`).
pub open spec fn task_edited_in<P: Prompter>(
    pr: P,
    s: Seq<TaskView>,
    id: nat,
    s2: Seq<TaskView>,
    p0: Seq<char>,
    p1: Seq<char>,
    w0: Seq<char>,
    w1: Seq<char>,
) -> bool {
    list_edited(s, id, s2, p0, p1, w0, w1, list_edit_outcome(pr, s, find_index(s, id), s2, p0, p1, w0, w1))
}

pub open spec fn ask_failed_text() -> Seq<char> {
    seq!['A', 'n', ' ', 'e', 'r', 'r', 'o', 'r', ' ', 'h', 'a', 'p', 'p', 'e', 'n', 'e', 'd', ' ', 'w', 'h', 'e', 'n', ' ',
        'a', 's', 'k', 'i', 'n', 'g', ' ', 'f', 'o', 'r', ' ', 't', 'h', 'e', ' ', 't', 'a', 's', 'k', '.']
}

pub open spec fn empty_title_text() -> Seq<char> {
    seq!['T', 'h', 'e', ' ', 't', 'i', 't', 'l', 'e', ' ', 'o', 'f', ' ', 't', 'h', 'e', ' ', 't', 'a', 's', 'k', ' ',
        'c', 'a', 'n', 'n', 'o', 't', ' ', 'b', 'e', ' ', 'e', 'm', 'p', 't', 'y', '.']
}

pub open spec fn unknown_command_text() -> Seq<char> {
    seq!['U', 'n', 'k', 'n', 'o', 'w', 'n', ' ', 'c', 'o', 'm', 'm', 'a', 'n', 'd']
}

pub open spec fn enter_task_question() -> Seq<char> {
    seq!['E', 'n', 't', 'e', 'r', ' ', 't', 'a', 's', 'k', ':']
}

pub open spec fn complete_question() -> Seq<char> {
    seq!['S', 'e', 'l', 'e', 'c', 't', ' ', 't', 'a', 's', 'k', 's', ' ', 't', 'o', ' ', 'c', 'o', 'm', 'p', 'l', 'e', 't', 'e']
}

pub open spec fn start_question() -> Seq<char> {
    seq!['S', 'e', 'l', 'e', 'c', 't', ' ', 't', 'a', 's', 'k', 's', ' ', 't', 'o', ' ', 's', 't', 'a', 'r', 't']
}

pub open spec fn star_question() -> Seq<char> {
    seq!['S', 'e', 'l', 'e', 'c', 't', ' ', 't', 'a', 's', 'k', 's', ' ', 't', 'o', ' ', 's', 't', 'a', 'r']
}

pub open spec fn copy_question() -> Seq<char> {
    seq!['S', 'e', 'l', 'e', 'c', 't', ' ', 't', 'a', 's', 'k', 's', ' ', 't', 'o', ' ', 'c', 'o', 'p', 'y']
}

pub open spec fn enter_date_question() -> Seq<char> {
    seq!['E', 'n', 't', 'e', 'r', ' ', 'd', 'a', 't', 'e', ':']
}

pub open spec fn delete_one_question() -> Seq<char> {
    seq!['S', 'e', 'l', 'e', 'c', 't', ' ', 't', 'a', 's', 'k', ' ', 't', 'o', ' ', 'd', 'e', 'l', 'e', 't', 'e']
}

pub open spec fn edit_one_question() -> Seq<char> {
    seq!['S', 'e', 'l', 'e', 'c', 't', ' ', 't', 'a', 's', 'k', ' ', 't', 'o', ' ', 'e', 'd', 'i', 't']
}

/// The positions a reply to a choice of any gives: those chosen, or none after a
/// failed question.
pub open spec fn positions_or_none(x: Result<Seq<usize>, FiniError>) -> Seq<usize> {
    match x {
        Ok(v) => v,
        Err(_) => Seq::empty(),
    }
}

/// The link that a link answer gives: none for an empty answer.
pub open spec fn link_of_answer(l: Seq<char>) -> Option<Seq<char>> {
    if l.len() == 0 { None } else { Some(l) }
}

/// What a command of the session did to the list (`s` before, `s2` after), to what
/// was printed (`p0`, `p1`), to the warnings (`w0`, `w1`; only editing warns) and
/// to the place copied to (`c0`, `c1`), with the outcome `r`, for the replies that
/// the prompter `pr` gave to its questions.
pub open spec fn session_step_done<P: Prompter, C: Copier>(
    command: SessionCommand,
    pr: P,
    s: Seq<TaskView>,
    s2: Seq<TaskView>,
    p0: Seq<char>,
    p1: Seq<char>,
    w0: Seq<char>,
    w1: Seq<char>,
    c0: C,
    c1: C,
    r: Result<bool, FiniError>,
) -> bool {
    let vis = visible(s);
    &&& command != SessionCommand::Edit ==> w1 == w0
    &&& match command {
        SessionCommand::Quit => s2 == s && p1 == p0 && c1 == c0,
        SessionCommand::List => s2 == s && p1 == p0 && c1 == c0,
        SessionCommand::Unknown => s2 == s && p1 == p0 + unknown_command_text() + seq!['\n'] && c1 == c0,
        SessionCommand::ListArchived => s2 == s && c1 == c0
            && exists|lines: Seq<Seq<char>>| #[trigger] archive_listing(stable_sort(SortKey::ByDate, s), lines)
                && p1 == p0 + printed_lines(lines),
        SessionCommand::Add => c1 == c0 && exists|x: Result<Seq<char>, FiniError>|
            #[trigger] pr.may_give_text(enter_task_question(), x) && match x {
                Err(_) => s2 == s && p1 == p0 + ask_failed_text() + seq!['\n'],
                Ok(title) => if title.len() == 0 {
                    s2 == s && p1 == p0 + empty_title_text() + seq!['\n']
                } else {
                    exists|y: Result<Seq<char>, FiniError>|
                        #[trigger] pr.may_give_text(link_question(), y) && match y {
                            Err(_) => s2 == s && p1 == p0,
                            Ok(l) => (r is Err && s2 == s && p1 == p0) || (r is Ok
                                && s2 == s.push(new_task(next_id_of(s), title, link_of_answer(l)))
                                && p1 == p0 + added_prefix() + title + seq!['\n']),
                        }
                },
            },
        SessionCommand::Check => c1 == c0 && exists|x: Result<Seq<usize>, FiniError>, today: Date|
            pr.may_choose_many(complete_question(), vis.len(), x) && chosen_within(positions_or_none(x), vis.len())
            && today.valid()
            && s2 == (#[trigger] toggle_each(Toggle::Check, s, chosen_ids(vis, positions_or_none(x)), today)).tasks
            && p1 == p0 + printed_lines(toggle_each(Toggle::Check, s, chosen_ids(vis, positions_or_none(x)), today).lines),
        SessionCommand::Begin => c1 == c0 && exists|x: Result<Seq<usize>, FiniError>, today: Date|
            pr.may_choose_many(start_question(), vis.len(), x) && chosen_within(positions_or_none(x), vis.len())
            && today.valid()
            && s2 == (#[trigger] toggle_each(Toggle::Begin, s, chosen_ids(vis, positions_or_none(x)), today)).tasks
            && p1 == p0 + printed_lines(toggle_each(Toggle::Begin, s, chosen_ids(vis, positions_or_none(x)), today).lines),
        SessionCommand::Star => c1 == c0 && exists|x: Result<Seq<usize>, FiniError>|
            #[trigger] pr.may_choose_many(star_question(), vis.len(), x) && match x {
                Err(_) => s2 == s && p1 == p0,
                Ok(sel) => chosen_within(sel, vis.len())
                    && s2 == toggle_each(Toggle::Star, s, chosen_ids(vis, sel), Date::spec_epoch()).tasks
                    && p1 == p0 + (if toggle_each(Toggle::Star, s, chosen_ids(vis, sel), Date::spec_epoch()).changed {
                        starred_text() } else { none_selected_text() }) + seq!['\n'],
            },
        SessionCommand::Copy => s2 == s && exists|x: Result<Seq<usize>, FiniError>|
            #[trigger] pr.may_choose_many(copy_question(), vis.len(), x) && match x {
                Err(_) => p1 == p0 && c1 == c0,
                Ok(sel) => chosen_within(sel, vis.len()) && copied_ids(s, chosen_ids(vis, sel), c1, p0, p1, r),
            },
        SessionCommand::CopyChecked => s2 == s && copied_ids(s, checked_ids(s), c1, p0, p1, r),
        SessionCommand::CopyDate => s2 == s && exists|x: Result<Seq<char>, FiniError>|
            #[trigger] pr.may_give_text(enter_date_question(), x) && match x {
                Err(_) => p1 == p0 && c1 == c0,
                Ok(date) => copied_ids(s, ids_on(s, date), c1, p0, p1, r),
            },
        SessionCommand::Clear => c1 == c0 && exists|x: Result<bool, FiniError>|
            #[trigger] pr.may_confirm(clear_question(), x) && if x == Ok::<bool, FiniError>(true) {
                (r is Err && s2 == s && p1 == p0) || (r is Ok && s2 == cleared_list(s) && p1 == p0 + cleared_text() + seq!['\n'])
            } else {
                s2 == s && p1 == p0
            },
        SessionCommand::Delete => c1 == c0 && p1 == p0 && exists|x: Result<Option<usize>, FiniError>|
            #[trigger] pr.may_choose_one(delete_one_question(), vis.len(), x) && match x {
                Ok(Some(i)) => i < vis.len() && s2 == without_ids(s, seq![vis[i as int].id as usize]),
                _ => s2 == s,
            },
        SessionCommand::Edit => c1 == c0 && exists|x: Result<Option<usize>, FiniError>|
            #[trigger] pr.may_choose_one(edit_one_question(), vis.len(), x) && match x {
                Ok(Some(i)) => i < vis.len() && task_edited_in(pr, s, vis[i as int].id, s2, p0, p1, w0, w1),
                _ => s2 == s && p1 == p0 && w1 == w0,
            },
    }
}

proof fn lemma_toggle_each_dates(kind: Toggle, s: Seq<TaskView>, ids: Seq<usize>, today: Date)
    requires
        dates_valid(s),
        today.valid(),
    ensures
        dates_valid(toggle_each(kind, s, ids, today).tasks),
    decreases ids.len(),
{
    if ids.len() > 0 {
        lemma_toggle_each_dates(kind, s, ids.drop_last(), today);
        let r = toggle_each(kind, s, ids.drop_last(), today);
        let i = find_index(r.tasks, ids.last() as nat);
        lemma_find_index(r.tasks, ids.last() as nat);
        if i >= 0 {
            assert(date_ok(r.tasks[i]));
            lemma_update_dates(r.tasks, i, toggled(kind, r.tasks[i], today));
        }
    }
}

proof fn lemma_copies_dates(s: Seq<TaskView>, next: nat)
    requires
        dates_valid(s),
    ensures
        dates_valid(in_progress_copies(s, next)),
    decreases s.len(),
{
    if s.len() > 0 {
        assert(dates_valid(s.drop_last()));
        lemma_copies_dates(s.drop_last(), next);
        assert(date_ok(s.last()));
        let a = in_progress_copies(s.drop_last(), next);
        let all = in_progress_copies(s, next);
        assert forall|i: int| 0 <= i < all.len() implies date_ok(#[trigger] all[i]) by {
            if i < a.len() {
                assert(all[i] == a[i]);
            }
        }
    }
}

proof fn lemma_cleared_list_dates(s: Seq<TaskView>)
    requires
        dates_valid(s),
    ensures
        dates_valid(cleared_list(s)),
{
    lemma_copies_dates(s, next_id_of(s));
    let m = s.map_values(|t: TaskView| cleared_in_place(t));
    let c = in_progress_copies(s, next_id_of(s));
    assert forall|i: int| 0 <= i < cleared_list(s).len() implies date_ok(#[trigger] cleared_list(s)[i]) by {
        if i < m.len() {
            assert(cleared_list(s)[i] == m[i]);
            assert(date_ok(s[i]));
        } else {
            assert(cleared_list(s)[i] == c[i - m.len()]);
        }
    }
}

/// The ids of the tasks done or in progress, in their order.
fn checked_task_ids(tasks: &Vec<TaskItem>) -> (r: Vec<usize>)
    ensures
        r@ == checked_ids(views(tasks@)),
{
    let ghost vs = views(tasks@);
    let ghost f = |t: TaskView| t.status == Status::Done || t.status == Status::InProgress;
    let ghost idf = |t: TaskView| t.id as usize;
    let mut r: Vec<usize> = Vec::new();
    let mut i: usize = 0;
    proof {
        reveal(Seq::filter);
        assert(vs.take(0) =~= Seq::<TaskView>::empty());
    }
    while i < tasks.len()
        invariant
            i <= tasks.len(),
            vs == views(tasks@),
            f == (|t: TaskView| t.status == Status::Done || t.status == Status::InProgress),
            idf == (|t: TaskView| t.id as usize),
            r@ == vs.take(i as int).filter(f).map_values(idf),
        decreases tasks.len() - i,
    {
        let t = &tasks[i];
        assert(vs.take(i + 1).drop_last() =~= vs.take(i as int));
        assert(vs.take(i + 1).last() == t@);
        proof {
            reveal(Seq::filter);
            let before = vs.take(i as int).filter(f);
            assert(vs.take(i + 1).filter(f) == if f(t@) { before.push(t@) } else { before });
            assert(before.push(t@).map_values(idf) =~= before.map_values(idf).push(idf(t@)));
        }
        match t.status {
            Status::Done | Status::InProgress => {
                r.push(t.id);
            },
            _ => {},
        }
        assert(r@ =~= vs.take(i + 1).filter(f).map_values(idf));
        i += 1;
    }
    assert(vs.take(i as int) =~= vs);
    r
}

/// `line` shows the task as an option to choose: its star, its status symbol, two
/// spaces, the title and the dimmed link.
pub open spec fn shown_as_option(t: TaskView, line: Seq<char>) -> bool {
    exists|star: Seq<char>, status: Seq<char>, text: Seq<char>|
        #[trigger] status_parts(t, LinkFormat::AdjacentColor, star, status, text, line)
}

/// The options offered when choosing tasks: each with its star, status symbol,
/// title and dimmed link.
fn task_options(vis: &Vec<TaskItem>) -> (r: Vec<String>)
    ensures
        r.len() == vis.len(),
        forall|k: int| 0 <= k < vis.len() ==> shown_as_option(vis@[k]@, #[trigger] r@[k]@),
{
    let mut r: Vec<String> = Vec::new();
    let mut k: usize = 0;
    while k < vis.len()
        invariant
            k <= vis.len(),
            r.len() == k,
            forall|j: int| 0 <= j < k ==> shown_as_option(vis@[j]@, #[trigger] r@[j]@),
        decreases vis.len() - k,
    {
        r.push(status_line_string(&vis[k], LinkFormat::AdjacentColor));
        k += 1;
    }
    r
}

/// The ids of the tasks at the chosen positions.
fn ids_at(vis: &Vec<TaskItem>, sel: &Vec<usize>) -> (r: Vec<usize>)
    requires
        chosen_within(sel@, vis.len() as nat),
    ensures
        r@ == chosen_ids(views(vis@), sel@),
{
    let mut r: Vec<usize> = Vec::new();
    let mut k: usize = 0;
    while k < sel.len()
        invariant
            k <= sel.len(),
            chosen_within(sel@, vis.len() as nat),
            r@ == chosen_ids(views(vis@), sel@.take(k as int)),
        decreases sel.len() - k,
    {
        assert(sel@[k as int] < vis.len());
        r.push(vis[sel[k]].id);
        assert(r@ =~= chosen_ids(views(vis@), sel@.take(k + 1)));
        k += 1;
    }
    assert(sel@.take(k as int) =~= sel@);
    r
}

/// Copies the tasks with the ids to the place as plain text and prints the ids.
fn copy_tasks<W: Printer, C: Copier>(items: &Vec<TaskItem>, ids: &Vec<usize>, printer: &mut W, copier: &mut C) -> (r: Result<bool, FiniError>)
    ensures
        copied_ids(views(items@), ids@, *final(copier), old(printer).printed(), final(printer).printed(), r),
        final(printer).warned() == old(printer).warned(),
{
    let (text, line) = Actions::copy(items, ids);
    let ghost tv = text@;
    let payload = CopyPayload::Text(TextPayload(text));
    assert(payload@ == PayloadView::Text(copy_text_of(views(items@), ids@)));
    match copier.copy(&payload) {
        Ok(()) => {},
        Err(e) => {
            return Err(e);
        },
    }
    printer.print(line.as_str());
    assert(printer.printed() == old(printer).printed() + copied_ids_prefix() + ids_text(ids@) + seq!['\n']);
    Ok(true)
}

/// Dates stay valid where each task keeps its date.
proof fn lemma_same_dates(s: Seq<TaskView>, s2: Seq<TaskView>)
    requires
        dates_valid(s),
        same_dates(s, s2),
    ensures
        dates_valid(s2),
{
    assert forall|k: int| 0 <= k < s2.len() implies date_ok(#[trigger] s2[k]) by {
        assert(date_ok(s[k]));
        assert(s2[k].active_date == s[k].active_date);
    }
}

/// A task the list shows is a task of the list, so its id is found.
proof fn lemma_shown_found(s: Seq<TaskView>, i: int)
    requires
        0 <= i < visible(s).len(),
    ensures
        0 <= find_index(s, visible(s)[i].id),
{
    lemma_filter_members(s, |t: TaskView| crate::util::is_visible(t));
    let j = choose|j: int| 0 <= j < s.len() && s[j] == visible(s)[i];
    lemma_find_index(s, visible(s)[i].id);
    if find_index(s, visible(s)[i].id) < 0 {
        assert(s[j].id != visible(s)[i].id);
    }
}

impl Actions {
    /// Carries out one command of the session's menu on the list, asking the user
    /// what the command needs, and tells whether the session goes on (after any
    /// command but `quit`). Fails where copying to the clipboard fails, or where a
    /// new task or a cleared list would need an id past the largest `usize`.
    pub fn session_step<P: Prompter, W: Printer, C: Copier>(
        items: &mut Vec<TaskItem>,
        command: SessionCommand,
        prompter: &P,
        printer: &mut W,
        copier: &mut C,
    ) -> (r: Result<bool, FiniError>)
        requires
            dates_valid(views(old(items)@)),
        ensures
            dates_valid(views(final(items)@)),
            r matches Ok(b) ==> (b <==> command != SessionCommand::Quit),
            r matches Err(e) ==> (e is Clipboard && (command == SessionCommand::Copy || command == SessionCommand::CopyChecked
                || command == SessionCommand::CopyDate)) || (e is Store && (command == SessionCommand::Add
                || command == SessionCommand::Clear)),
            r is Err ==> views(final(items)@) == views(old(items)@),
            command == SessionCommand::Add && r is Err ==> max_id(views(old(items)@)) == usize::MAX,
            command == SessionCommand::Clear && r is Err ==> max_id(views(old(items)@)) + old(items).len() >= usize::MAX,
            session_step_done(command, *prompter, views(old(items)@), views(final(items)@), old(printer).printed(),
                final(printer).printed(), old(printer).warned(), final(printer).warned(), *old(copier), *final(copier), r),
    {
        let ghost s = views(items@);
        match command {
            SessionCommand::Quit => Ok(false),
            SessionCommand::List => Ok(true),
            SessionCommand::Unknown => {
                printer.print("Unknown command");
                proof {
                    reveal_strlit("Unknown command");
                }
                assert(printer.printed() =~= old(printer).printed() + unknown_command_text() + seq!['\n']);
                Ok(true)
            },
            SessionCommand::ListArchived => {
                let lines = Actions::archived(items);
                print_all(printer, &lines);
                Ok(true)
            },
            SessionCommand::Add => {
                let answer = prompter.text("Enter task:");
                proof {
                    reveal_strlit("Enter task:");
                    assert("Enter task:"@ =~= enter_task_question());
                    assert(prompter.may_give_text(enter_task_question(), text_reply(answer)));
                }
                let title = match answer {
                    Ok(t) => t,
                    Err(_) => {
                        printer.print("An error happened when asking for the task.");
                        proof {
                            reveal_strlit("An error happened when asking for the task.");
                        }
                        assert(printer.printed() =~= old(printer).printed() + ask_failed_text() + seq!['\n']);
                        return Ok(true);
                    },
                };
                if title.as_str().is_empty() {
                    printer.print("The title of the task cannot be empty.");
                    proof {
                        reveal_strlit("The title of the task cannot be empty.");
                    }
                    assert(printer.printed() =~= old(printer).printed() + empty_title_text() + seq!['\n']);
                    return Ok(true);
                }
                let link_answer = prompter.text("(Optional) Enter link:");
                proof {
                    reveal_strlit("(Optional) Enter link:");
                    assert("(Optional) Enter link:"@ =~= link_question());
                    assert(prompter.may_give_text(link_question(), text_reply(link_answer)));
                }
                let link = match link_answer {
                    Ok(l) => l,
                    Err(_) => {
                        return Ok(true);
                    },
                };
                if max_task_id(items) == usize::MAX {
                    return Err(FiniError::Store(lit_string("the task ids have run out")));
                }
                let ghost tv = title@;
                if link.as_str().is_empty() {
                    let (_, line) = Actions::add(items, title);
                    printer.print(line.as_str());
                    proof {
                        lemma_push_dates(s, new_task(next_id_of(s), tv, None));
                        assert(s.push(new_task(next_id_of(s), tv, None)) == views(items@));
                        assert(tv.len() > 0);
                        assert(printer.printed() == old(printer).printed() + added_prefix() + tv + seq!['\n']);
                        let lk: Option<Seq<char>> = None;
                        assert(tv.len() > 0 && (lk matches Some(l) ==> l.len() > 0)
                            && views(items@) == s.push(new_task(next_id_of(s), tv, lk))
                            && printer.printed() == old(printer).printed() + added_prefix() + tv + seq!['\n']);
                    }
                } else {
                    let ghost lv = link@;
                    let line = Actions::add_with_link(items, title, link);
                    printer.print(line.as_str());
                    proof {
                        lemma_push_dates(s, new_task(next_id_of(s), tv, Some(lv)));
                        assert(s.push(new_task(next_id_of(s), tv, Some(lv))) == views(items@));
                        assert(tv.len() > 0 && lv.len() > 0);
                        let lk: Option<Seq<char>> = Some(lv);
                        assert(tv.len() > 0 && (lk matches Some(l) ==> l.len() > 0)
                            && views(items@) == s.push(new_task(next_id_of(s), tv, lk))
                            && printer.printed() == old(printer).printed() + added_prefix() + tv + seq!['\n']);
                    }
                }
                Ok(true)
            },
            SessionCommand::Check | SessionCommand::Begin => {
                let vis = visible_items(items);
                let options = task_options(&vis);
                let message = if command == SessionCommand::Check { "Select tasks to complete" } else { "Select tasks to start" };
                proof {
                    reveal_strlit("Select tasks to complete");
                    reveal_strlit("Select tasks to start");
                    assert("Select tasks to complete"@ =~= complete_question());
                    assert("Select tasks to start"@ =~= start_question());
                }
                let chosen = prompter.select_many(message, &options);
                let ghost x = positions_reply(chosen);
                let sel = match chosen {
                    Ok(v) => v,
                    Err(_) => Vec::new(),
                };
                assert(sel@ =~= positions_or_none(x));
                let ids = ids_at(&vis, &sel);
                let lines = if command == SessionCommand::Check {
                    let (lines, _, _) = Actions::done(items, &ids);
                    lines
                } else {
                    let (lines, _, _) = Actions::work(items, &ids);
                    lines
                };
                print_all(printer, &lines);
                proof {
                    let kind = if command == SessionCommand::Check { Toggle::Check } else { Toggle::Begin };
                    let today = choose|today: Date| today.valid() && {
                        let run = #[trigger] toggle_each(kind, s, ids@, today);
                        views(items@) == run.tasks && texts(lines@) == run.lines
                    };
                    lemma_toggle_each_dates(kind, s, ids@, today);
                    assert(chosen_within(sel@, visible(s).len()));
                    assert(toggle_each(kind, s, chosen_ids(visible(s), sel@), today).tasks == views(items@));
                    assert(toggle_each(kind, s, chosen_ids(visible(s), positions_or_none(x)), today).tasks == views(items@));
                }
                Ok(true)
            },
            SessionCommand::Star | SessionCommand::Copy => {
                let vis = visible_items(items);
                let options = task_options(&vis);
                let message = if command == SessionCommand::Star { "Select tasks to star" } else { "Select tasks to copy" };
                proof {
                    reveal_strlit("Select tasks to star");
                    reveal_strlit("Select tasks to copy");
                    assert("Select tasks to star"@ =~= star_question());
                    assert("Select tasks to copy"@ =~= copy_question());
                }
                let chosen = prompter.select_many(message, &options);
                let sel = match chosen {
                    Ok(v) => v,
                    Err(_) => {
                        return Ok(true);
                    },
                };
                let ids = ids_at(&vis, &sel);
                assert(chosen_within(sel@, visible(s).len()));
                if command == SessionCommand::Star {
                    let (line, _, _) = Actions::star(items, &ids);
                    printer.print(line.as_str());
                    proof {
                        lemma_toggle_each_dates(Toggle::Star, s, ids@, Date::spec_epoch());
                        assert(toggle_each(Toggle::Star, s, chosen_ids(visible(s), sel@), Date::spec_epoch()).tasks == views(items@));
                    }
                    Ok(true)
                } else {
                    let r = copy_tasks(items, &ids, printer, copier);
                    assert(copied_ids(s, chosen_ids(visible(s), sel@), *copier, old(printer).printed(), printer.printed(), r));
                    r
                }
            },
            SessionCommand::CopyChecked => {
                let ids = checked_task_ids(items);
                copy_tasks(items, &ids, printer, copier)
            },
            SessionCommand::CopyDate => {
                let date_answer = prompter.text("Enter date:");
                proof {
                    reveal_strlit("Enter date:");
                    assert("Enter date:"@ =~= enter_date_question());
                    assert(prompter.may_give_text(enter_date_question(), text_reply(date_answer)));
                }
                let date = match date_answer {
                    Ok(d) => d,
                    Err(_) => {
                        return Ok(true);
                    },
                };
                let ids = get_task_ids_for_date(items, date.as_str());
                let r = copy_tasks(items, &ids, printer, copier);
                assert(ids@ == ids_on(s, date@));
                assert(copied_ids(s, ids_on(s, date@), *copier, old(printer).printed(), printer.printed(), r));
                r
            },
            SessionCommand::Clear => {
                let answer = prompter.confirm("Are you sure you want to archive all complete tasks?");
                proof {
                    reveal_strlit("Are you sure you want to archive all complete tasks?");
                    assert("Are you sure you want to archive all complete tasks?"@ =~= clear_question());
                    assert(prompter.may_confirm(clear_question(), answer));
                }
                let yes = match answer {
                    Ok(b) => b,
                    Err(_) => false,
                };
                if yes {
                    if max_task_id(items) >= usize::MAX - items.len() {
                        return Err(FiniError::Store(lit_string("the task ids have run out")));
                    }
                    let line = Actions::clear(items);
                    printer.print(line.as_str());
                    proof {
                        lemma_cleared_list_dates(s);
                        assert(views(items@) == cleared_list(s));
                    }
                }
                Ok(true)
            },
            SessionCommand::Delete => {
                let vis = visible_items(items);
                let options = task_options(&vis);
                let answer = prompter.select_one("Select task to delete", &options);
                proof {
                    reveal_strlit("Select task to delete");
                    assert("Select task to delete"@ =~= delete_one_question());
                    assert(prompter.may_choose_one(delete_one_question(), visible(s).len(), answer));
                }
                let choice = match answer {
                    Ok(c) => c,
                    Err(_) => None,
                };
                if let Some(i) = choice {
                    let mut ids: Vec<usize> = Vec::new();
                    ids.push(vis[i].id);
                    let mut all: Vec<TaskItem> = Vec::new();
                    std::mem::swap(items, &mut all);
                    *items = Actions::delete(all, &ids);
                    proof {
                        assert(ids@ =~= seq![visible(s)[i as int].id as usize]);
                        lemma_filter_dates(s, |t: TaskView| !crate::util::id_in(ids@, t.id));
                    }
                }
                Ok(true)
            },
            SessionCommand::Edit => {
                let vis = visible_items(items);
                let options = task_options(&vis);
                let answer = prompter.select_one("Select task to edit", &options);
                proof {
                    reveal_strlit("Select task to edit");
                    assert("Select task to edit"@ =~= edit_one_question());
                    assert(prompter.may_choose_one(edit_one_question(), visible(s).len(), answer));
                }
                let choice = match answer {
                    Ok(c) => c,
                    Err(_) => None,
                };
                if let Some(i) = choice {
                    let id = vis[i].id;
                    proof {
                        lemma_shown_found(s, i as int);
                    }
                    Actions::edit(items, id, prompter, printer);
                    proof {
                        lemma_same_dates(s, views(items@));
                        assert(task_edited_in(*prompter, s, visible(s)[i as int].id, views(items@), old(printer).printed(), printer.printed(),
                            old(printer).warned(), printer.warned()));
                    }
                }
                Ok(true)
            },
        }
    }
}

} // verus!
