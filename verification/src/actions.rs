//! Selections over a whole task list, by date and by status, and deleting by id.

use vstd::prelude::*;
use crate::date::{naive_date_text, date_text};
use crate::markdown::dates_valid;
use crate::storage::{lex_lt, name_less};
use crate::task_item::{Status, TaskItem, TaskView, views};
use crate::util::{
    without_ids, delete_ids, with_ids, Toggle, toggled, toggle_message, find_index, find_task, toggle_one,
    texts, max_id, next_id_of, new_task, add_task, archived_copy, count_in_progress, join_with,
    adjacent_texts, list_lines, no_tasks_text, visible, visible_items, lemma_find_index, lit_string,
    joined_message, get_tasks_for_ids, added_prefix, starred_text, none_selected_text,
};
use crate::date::Date;
use crate::text::{decimal, decimal_string, push_str};
use crate::commands::LinkFormat;
use crate::task_item::{adjacent_text, adjacent_string, link_view};
use crate::error::FiniError;
use crate::printer::Printer;
use crate::prompter::{Prompter, text_reply};
use crate::text::trim;
use crate::util::{trimmed, link_or_empty, no_changes_text, updated_prefix, empty_link_warning, empty_title_warning};
use crate::util::{edit_link_question, edit_task_question, edit_link_wanted_question, no_task_message, no_task_warning};
use crate::paint::{painted, green, green_code};
use crate::sort::{SortKey, stable_sort, sort_tasks, lemma_stable_sort_members};
use crate::task_item::{status_parts, status_line_string};
use crate::markdown::date_ok;

verus! {

/// The task has a date whose text (`YYYY-MM-DD` for the years 0 to 9999) is `date`.
pub open spec fn dated_as(t: TaskView, date: Seq<char>) -> bool {
    match t.active_date {
        Some(d) => naive_date_text(d.year, d.month, d.day) == date,
        None => false,
    }
}

/// The task has a date whose text comes before `date` in the order of `str`.
pub open spec fn dated_before(t: TaskView, date: Seq<char>) -> bool {
    match t.active_date {
        Some(d) => lex_lt(naive_date_text(d.year, d.month, d.day), date),
        None => false,
    }
}

/// The ids of the tasks that satisfy `f`, in their order.
pub open spec fn ids_where(s: Seq<TaskView>, f: spec_fn(TaskView) -> bool) -> Seq<usize> {
    s.filter(f).map_values(|t: TaskView| t.id as usize)
}

/// Which selection of tasks to make.
enum Selection {
    OnDate,
    BeforeDate,
    Archived,
}

spec fn selects(which: Selection, t: TaskView, date: Seq<char>) -> bool {
    match which {
        Selection::OnDate => dated_as(t, date),
        Selection::BeforeDate => dated_before(t, date),
        Selection::Archived => t.status == Status::Archived,
    }
}

/// The ids of the tasks of the selection, in their order.
fn select_ids(tasks: &Vec<TaskItem>, which: Selection, date: &str) -> (r: Vec<usize>)
    requires
        dates_valid(views(tasks@)),
    ensures
        r@ == ids_where(views(tasks@), |t: TaskView| selects(which, t, date@)),
{
    let ghost vs = views(tasks@);
    let ghost f = |t: TaskView| selects(which, t, date@);
    let ghost idf = |t: TaskView| t.id as usize;
    let mut r: Vec<usize> = Vec::new();
    let mut i: usize = 0;
    proof {
        reveal(Seq::filter);
        assert(vs.take(0) =~= Seq::<TaskView>::empty());
    }
    while i < tasks.len()
        invariant
            i <= tasks.len(),
            vs == views(tasks@),
            dates_valid(vs),
            f == (|t: TaskView| selects(which, t, date@)),
            idf == (|t: TaskView| t.id as usize),
            r@ == vs.take(i as int).filter(f).map_values(idf),
        decreases tasks.len() - i,
    {
        let t = &tasks[i];
        assert(vs.take(i + 1).drop_last() =~= vs.take(i as int));
        assert(vs.take(i + 1).last() == t@);
        proof {
            reveal(Seq::filter);
            let before = vs.take(i as int).filter(f);
            assert(vs.take(i + 1).filter(f) == if f(t@) { before.push(t@) } else { before });
            assert(before.push(t@).map_values(idf) =~= before.map_values(idf).push(idf(t@)));
            assert(crate::markdown::date_ok(vs[i as int]));
        }
        let keep = match which {
            Selection::Archived => t.status == Status::Archived,
            _ => match t.active_date {
                Some(d) => {
                    let text = date_text(d);
                    match which {
                        Selection::OnDate => !name_less(text.as_str(), date) && !name_less(date, text.as_str()),
                        _ => name_less(text.as_str(), date),
                    }
                },
                None => false,
            },
        };
        proof {
            if which == Selection::OnDate && t.active_date is Some {
                let text = naive_date_text(t@.active_date->0.year, t@.active_date->0.month, t@.active_date->0.day);
                if text != date@ {
                    crate::storage::lemma_lex_total(text, date@);
                } else {
                    crate::storage::lemma_lex_irreflexive(text);
                }
            }
        }
        if keep {
            r.push(t.id);
        }
        assert(r@ =~= vs.take(i + 1).filter(f).map_values(idf));
        i += 1;
    }
    assert(vs.take(tasks.len() as int) =~= vs);
    r
}

/// The ids of the tasks dated `date`, written `YYYY-MM-DD`, in their order.
pub fn get_task_ids_for_date(tasks: &Vec<TaskItem>, date: &str) -> (r: Vec<usize>)
    requires
        dates_valid(views(tasks@)),
    ensures
        r@ == ids_where(views(tasks@), |t: TaskView| dated_as(t, date@)),
{
    let r = select_ids(tasks, Selection::OnDate, date);
    assert((|t: TaskView| selects(Selection::OnDate, t, date@)) =~= (|t: TaskView| dated_as(t, date@)));
    r
}

/// The ids of the tasks whose date, written `YYYY-MM-DD`, comes before the text
/// `date`, in their order.
pub fn get_task_ids_before_date(tasks: &Vec<TaskItem>, date: &str) -> (r: Vec<usize>)
    requires
        dates_valid(views(tasks@)),
    ensures
        r@ == ids_where(views(tasks@), |t: TaskView| dated_before(t, date@)),
{
    let r = select_ids(tasks, Selection::BeforeDate, date);
    assert((|t: TaskView| selects(Selection::BeforeDate, t, date@)) =~= (|t: TaskView| dated_before(t, date@)));
    r
}

/// The ids of the archived tasks, in their order.
pub fn get_archived_task_ids(tasks: &Vec<TaskItem>) -> (r: Vec<usize>)
    requires
        dates_valid(views(tasks@)),
    ensures
        r@ == ids_where(views(tasks@), |t: TaskView| t.status == Status::Archived),
{
    let r = select_ids(tasks, Selection::Archived, "");
    assert((|t: TaskView| selects(Selection::Archived, t, ""@)) =~= (|t: TaskView| t.status == Status::Archived));
    r
}

/// Actions on a whole task list.
pub struct Actions {}

impl Actions {
    /// The tasks without those whose ids are among `ids`, in their order.
    pub fn delete(items: Vec<TaskItem>, ids: &Vec<usize>) -> (r: Vec<TaskItem>)
        ensures
            views(r@) == without_ids(views(items@), ids@),
    {
        delete_ids(items, ids)
    }
}


/// Where toggling each id in turn has got to: the tasks, the lines printed,
/// whether any task changed, and the ids that no task has (passed over).
pub struct EachRun {
    pub tasks: Seq<TaskView>,
    pub lines: Seq<Seq<char>>,
    pub changed: bool,
    pub missing: Seq<usize>,
}

/// Toggling the task with each id in turn, passing over ids that no task has.
pub open spec fn toggle_each(kind: Toggle, s: Seq<TaskView>, ids: Seq<usize>, today: Date) -> EachRun
    decreases ids.len(),
{
    if ids.len() == 0 {
        EachRun { tasks: s, lines: Seq::empty(), changed: false, missing: Seq::empty() }
    } else {
        let r = toggle_each(kind, s, ids.drop_last(), today);
        let i = find_index(r.tasks, ids.last() as nat);
        if i < 0 {
            EachRun { missing: r.missing.push(ids.last()), ..r }
        } else {
            EachRun {
                tasks: r.tasks.update(i, toggled(kind, r.tasks[i], today)),
                lines: r.lines + toggle_message(kind, r.tasks[i]),
                changed: true,
                missing: r.missing,
            }
        }
    }
}

/// Toggles the task with each id in turn as of the date `today`, passing over ids
/// that no task has: the lines to print, whether any task changed, and the ids
/// passed over.
pub fn toggle_each_id(kind: Toggle, tasks: &mut Vec<TaskItem>, ids: &Vec<usize>, today: Date) -> (r: (Vec<String>, bool, Vec<usize>))
    ensures
        views(final(tasks)@) == toggle_each(kind, views(old(tasks)@), ids@, today).tasks,
        texts(r.0@) == toggle_each(kind, views(old(tasks)@), ids@, today).lines,
        r.1 == toggle_each(kind, views(old(tasks)@), ids@, today).changed,
        r.2@ == toggle_each(kind, views(old(tasks)@), ids@, today).missing,
{
    let ghost start = views(tasks@);
    let mut lines: Vec<String> = Vec::new();
    let mut changed = false;
    let mut missing: Vec<usize> = Vec::new();
    let mut k: usize = 0;
    assert(ids@.take(0) =~= Seq::<usize>::empty());
    assert(texts(lines@) =~= Seq::<Seq<char>>::empty());
    while k < ids.len()
        invariant
            k <= ids.len(),
            start == views(old(tasks)@),
            views(tasks@) == toggle_each(kind, start, ids@.take(k as int), today).tasks,
            texts(lines@) == toggle_each(kind, start, ids@.take(k as int), today).lines,
            changed == toggle_each(kind, start, ids@.take(k as int), today).changed,
            missing@ == toggle_each(kind, start, ids@.take(k as int), today).missing,
        decreases ids.len() - k,
    {
        let id = ids[k];
        assert(ids@.take(k + 1).drop_last() =~= ids@.take(k as int));
        assert(ids@.take(k + 1).last() == id);
        if let Some(i) = find_task(tasks, id) {
            let ghost before = views(tasks@);
            let ghost lines_before = texts(lines@);
            let mut t = tasks[i].clone();
            let msg = toggle_one(kind, &mut t, today);
            tasks.set(i, t);
            assert(views(tasks@) =~= before.update(i as int, toggled(kind, before[i as int], today)));
            if let Some(m) = msg {
                lines.push(m);
            }
            assert(texts(lines@) =~= lines_before + toggle_message(kind, before[i as int]));
            changed = true;
        } else {
            missing.push(id);
        }
        k += 1;
    }
    assert(ids@.take(ids.len() as int) =~= ids@);
    (lines, changed, missing)
}

/// The ids in decimal, joined by `, `.
pub open spec fn ids_text(ids: Seq<usize>) -> Seq<char> {
    join_with(Seq::new(ids.len(), |k: int| decimal(ids[k] as nat)), seq![',', ' '])
}

pub open spec fn copied_ids_prefix() -> Seq<char> {
    seq!['C', 'o', 'p', 'i', 'e', 'd', ' ', 't', 'e', 'x', 't', ' ', 'f', 'o', 'r', ' ', 't', 'a', 's', 'k', 's', ':', ' ']
}

pub open spec fn added_link_prefix() -> Seq<char> {
    seq!['A', 'd', 'd', 'e', 'd', ' ', 'l', 'i', 'n', 'k', ' ', 't', 'o', ' ', 't', 'a', 's', 'k', ':', ' ']
}

/// What clearing in place makes of a task: a done task archived, a task
/// in progress back to do, any other as it is.
pub open spec fn cleared_in_place(t: TaskView) -> TaskView {
    if t.status == Status::Done {
        TaskView { status: Status::Archived, ..t }
    } else if t.status == Status::InProgress {
        TaskView { status: Status::Todo, ..t }
    } else {
        t
    }
}

/// Law: clearing a list in place leaves a task to do (or archived) just as it was,
/// star, link and date included; a done task becomes archived and a task in
/// progress goes back to do, each otherwise as it was.
pub proof fn law_clear_in_place(t: TaskView)
    ensures
        t.status == Status::Todo || t.status == Status::Archived ==> cleared_in_place(t) == t,
        t.status == Status::Done ==> cleared_in_place(t) == (TaskView { status: Status::Archived, ..t }),
        t.status == Status::InProgress ==> cleared_in_place(t) == (TaskView { status: Status::Todo, ..t }),
{
}

/// The archived copies of the tasks in progress, under new ids counted from `next`.
pub open spec fn in_progress_copies(s: Seq<TaskView>, next: nat) -> Seq<TaskView>
    decreases s.len(),
{
    if s.len() == 0 {
        Seq::empty()
    } else {
        in_progress_copies(s.drop_last(), next) + if s.last().status == Status::InProgress {
            seq![TaskView { id: next + count_in_progress(s.drop_last()), ..archived_copy(s.last()) }]
        } else {
            Seq::empty()
        }
    }
}

impl Actions {
    /// Adds a task with the title under the next id: the id, and the line to print.
    pub fn add(items: &mut Vec<TaskItem>, title: String) -> (r: (usize, String))
        requires
            max_id(views(old(items)@)) < usize::MAX,
        ensures
            r.0 == next_id_of(views(old(items)@)),
            views(final(items)@) == views(old(items)@).push(new_task(r.0 as nat, title@, None)),
            r.1@ == added_prefix() + title@,
    {
        let line = joined_message("Added task: ", title.as_str());
        proof {
            reveal_strlit("Added task: ");
        }
        let id = add_task(items, title, None);
        (id, line)
    }

    /// Adds a task with the title and the link under the next id: the line to print.
    pub fn add_with_link(items: &mut Vec<TaskItem>, title: String, link: String) -> (r: String)
        requires
            max_id(views(old(items)@)) < usize::MAX,
        ensures
            views(final(items)@) == views(old(items)@).push(
                new_task(next_id_of(views(old(items)@)), title@, Some(link@)),
            ),
            r@ == added_prefix() + title@,
    {
        let line = joined_message("Added task: ", title.as_str());
        proof {
            reveal_strlit("Added task: ");
        }
        add_task(items, title, Some(link));
        line
    }

    /// Gives the first task with the id the link: the line to print, if a task has
    /// the id.
    pub fn link(items: &mut Vec<TaskItem>, id: usize, link: String) -> (r: Option<String>)
        ensures
            find_index(views(old(items)@), id as nat) < 0 ==> r is None && final(items)@ == old(items)@,
            find_index(views(old(items)@), id as nat) >= 0 ==> {
                let i = find_index(views(old(items)@), id as nat);
                &&& views(final(items)@) == views(old(items)@).update(i, TaskView { link: Some(link@), ..views(old(items)@)[i] })
                &&& r matches Some(m) && m@ == added_link_prefix() + views(old(items)@)[i].title
            },
    {
        match find_task(items, id) {
            None => None,
            Some(i) => {
                let ghost before = views(items@);
                let mut t = items[i].clone();
                let line = joined_message("Added link to task: ", t.title.as_str());
                proof {
                    reveal_strlit("Added link to task: ");
                }
                t.link = Some(link);
                let ghost tv = t@;
                items.set(i, t);
                assert(views(items@) =~= before.update(i as int, tv));
                Some(line)
            },
        }
    }

    /// The lines that list the tasks the list shows, in their order, each with its
    /// position, star, status, and its link after the title, dimmed; `No tasks` if
    /// there is none.
    pub fn list(items: &Vec<TaskItem>) -> (r: Vec<String>)
        ensures
            visible(views(items@)).len() == 0 ==> texts(r@) == seq![no_tasks_text()],
            visible(views(items@)).len() > 0 ==> list_lines(visible(views(items@)), LinkFormat::AdjacentColor, texts(r@)),
    {
        let shown = visible_items(items);
        let mut lines: Vec<String> = Vec::new();
        if shown.len() == 0 {
            lines.push(lit_string("No tasks"));
            proof {
                reveal_strlit("No tasks");
                assert(texts(lines@) =~~= seq![no_tasks_text()]);
            }
            return lines;
        }
        let mut k: usize = 0;
        while k < shown.len()
            invariant
                k <= shown.len(),
                lines.len() == k,
                forall|j: int| 0 <= j < k ==> crate::task_item::shows_with_index(shown@[j]@, (j + 1) as nat, LinkFormat::AdjacentColor, #[trigger] lines@[j]@),
            decreases shown.len() - k,
        {
            lines.push(crate::task_item::with_index_string(&shown[k], k + 1, LinkFormat::AdjacentColor));
            k += 1;
        }
        assert(list_lines(views(shown@), LinkFormat::AdjacentColor, texts(lines@)));
        lines
    }

    /// Begins the tasks with the ids, or moves those in progress back to do, as of
    /// today's date, whatever the clock gives; ids no task has are passed over. The
    /// lines to print, whether any task changed (and so is to be written), and the
    /// ids passed over (to warn about).
    pub fn work(items: &mut Vec<TaskItem>, ids: &Vec<usize>) -> (r: (Vec<String>, bool, Vec<usize>))
        ensures
            exists|today: Date| today.valid() && {
                let run = #[trigger] toggle_each(Toggle::Begin, views(old(items)@), ids@, today);
                views(final(items)@) == run.tasks && texts(r.0@) == run.lines && r.1 == run.changed
                    && r.2@ == run.missing
            },
    {
        let today = crate::date::today();
        let r = toggle_each_id(Toggle::Begin, items, ids, today);
        r
    }

    /// Checks the tasks with the ids, or moves those done back to do, as of today's
    /// date, whatever the clock gives; ids no task has are passed over. The lines to
    /// print, whether any task changed, and the ids passed over.
    pub fn done(items: &mut Vec<TaskItem>, ids: &Vec<usize>) -> (r: (Vec<String>, bool, Vec<usize>))
        ensures
            exists|today: Date| today.valid() && {
                let run = #[trigger] toggle_each(Toggle::Check, views(old(items)@), ids@, today);
                views(final(items)@) == run.tasks && texts(r.0@) == run.lines && r.1 == run.changed
                    && r.2@ == run.missing
            },
    {
        let today = crate::date::today();
        let r = toggle_each_id(Toggle::Check, items, ids, today);
        r
    }

    /// Stars the tasks with the ids, or unstars the starred ones; ids no task has are
    /// passed over. The line to print (whether any task was starred), whether any
    /// task changed, and the ids passed over.
    pub fn star(items: &mut Vec<TaskItem>, ids: &Vec<usize>) -> (r: (String, bool, Vec<usize>))
        ensures
            views(final(items)@) == toggle_each(Toggle::Star, views(old(items)@), ids@, Date::spec_epoch()).tasks,
            r.1 == toggle_each(Toggle::Star, views(old(items)@), ids@, Date::spec_epoch()).changed,
            r.0@ == if r.1 { starred_text() } else { none_selected_text() },
            r.2@ == toggle_each(Toggle::Star, views(old(items)@), ids@, Date::spec_epoch()).missing,
    {
        let (_, changed, missing) = toggle_each_id(Toggle::Star, items, ids, Date::epoch());
        proof {
            reveal_strlit("Starred the selected tasks");
            reveal_strlit("No tasks selected");
        }
        if changed {
            (lit_string("Starred the selected tasks"), true, missing)
        } else {
            (lit_string("No tasks selected"), false, missing)
        }
    }

    /// The text copied for the tasks with the ids (each task's title and link, in
    /// the list's order, one per line), and the line to print, which names the ids.
    pub fn copy(items: &Vec<TaskItem>, ids: &Vec<usize>) -> (r: (String, String))
        ensures
            r.0@ == join_with(adjacent_texts(with_ids(views(items@), ids@)), seq!['\n']),
            r.1@ == copied_ids_prefix() + ids_text(ids@),
    {
        let mut copies: Vec<TaskItem> = Vec::new();
        let mut k: usize = 0;
        while k < items.len()
            invariant
                k <= items.len(),
                views(copies@) == views(items@.take(k as int)),
            decreases items.len() - k,
        {
            let c = items[k].clone();
            let ghost before = views(copies@);
            copies.push(c);
            assert(views(copies@) =~= before.push(items@[k as int]@));
            assert(views(items@.take(k + 1)) =~= views(items@.take(k as int)).push(items@[k as int]@));
            assert(views(copies@) =~= views(items@.take(k + 1)));
            k += 1;
        }
        assert(items@.take(items.len() as int) =~= items@);
        let sel = get_tasks_for_ids(copies, ids);
        let ghost sv = views(sel@);
        let mut text = String::new();
        let mut parts: Vec<String> = Vec::new();
        let mut j: usize = 0;
        while j < sel.len()
            invariant
                j <= sel.len(),
                sv == views(sel@),
                texts(parts@) == adjacent_texts(sv).take(j as int),
                text@ == join_with(texts(parts@), seq!['\n']),
            decreases sel.len() - j,
        {
            let a = adjacent_string(&sel[j]);
            let ghost before = texts(parts@);
            proof {
                crate::util::lemma_join_push_pub(before, seq!['\n'], a@);
            }
            if j > 0 {
                push_str(&mut text, "\n");
                proof {
                    reveal_strlit("\n");
                }
            }
            push_str(&mut text, a.as_str());
            parts.push(a);
            assert(texts(parts@) =~= before.push(parts@[j as int]@));
            assert(texts(parts@) =~= adjacent_texts(sv).take(j + 1));
            j += 1;
        }
        assert(adjacent_texts(sv).take(j as int) =~= adjacent_texts(sv));
        let mut line = lit_string("Copied text for tasks: ");
        proof {
            reveal_strlit("Copied text for tasks: ");
        }
        let mut numbers: Vec<String> = Vec::new();
        let mut n: usize = 0;
        let mut joined = String::new();
        let ghost dec = Seq::new(ids@.len(), |q: int| decimal(ids@[q] as nat));
        while n < ids.len()
            invariant
                n <= ids.len(),
                dec == Seq::new(ids@.len(), |q: int| decimal(ids@[q] as nat)),
                texts(numbers@) == dec.take(n as int),
                joined@ == join_with(texts(numbers@), seq![',', ' ']),
            decreases ids.len() - n,
        {
            let dstr = decimal_string(ids[n]);
            let ghost before = texts(numbers@);
            proof {
                crate::util::lemma_join_push_pub(before, seq![',', ' '], dstr@);
            }
            if n > 0 {
                push_str(&mut joined, ", ");
                proof {
                    reveal_strlit(", ");
                }
            }
            push_str(&mut joined, dstr.as_str());
            numbers.push(dstr);
            assert(texts(numbers@) =~= before.push(numbers@[n as int]@));
            assert(texts(numbers@) =~= dec.take(n + 1));
            n += 1;
        }
        assert(dec.take(n as int) =~= dec);
        push_str(&mut line, joined.as_str());
        (text, line)
    }

    /// Clears the list in place, keeping what it archives in it: done tasks become
    /// archived, tasks in progress go back to do, and an archived copy of each task
    /// in progress is added at the end under a new id (from the next id on).
    pub fn clear(items: &mut Vec<TaskItem>) -> (r: String)
        requires
            max_id(views(old(items)@)) + old(items).len() < usize::MAX,
        ensures
            views(final(items)@) == views(old(items)@).map_values(|t: TaskView| cleared_in_place(t))
                + in_progress_copies(views(old(items)@), next_id_of(views(old(items)@))),
            r@ == crate::util::cleared_text(),
    {
        let ghost s = views(items@);
        let next = crate::util::get_next_id(items);
        let mut next_id = next;
        let mut copies: Vec<TaskItem> = Vec::new();
        let mut i: usize = 0;
        proof {
            crate::util::lemma_count_bound_pub(s);
        }
        while i < items.len()
            invariant
                i <= items.len(),
                items.len() == s.len(),
                s.len() + next <= usize::MAX,
                next == next_id_of(s),
                forall|j: int| 0 <= j < i ==> #[trigger] views(items@)[j] == cleared_in_place(s[j]),
                forall|j: int| i <= j < items.len() ==> #[trigger] views(items@)[j] == s[j],
                views(copies@) == in_progress_copies(s.take(i as int), next as nat),
                next_id == next + count_in_progress(s.take(i as int)),
                count_in_progress(s.take(i as int)) <= i,
            decreases items.len() - i,
        {
            assert(s.take(i + 1).drop_last() =~= s.take(i as int));
            assert(s.take(i + 1).last() == s[i as int]);
            assert(views(items@)[i as int] == s[i as int]);
            let mut t = items[i].clone();
            let ghost before = views(copies@);
            let ghost items_before = views(items@);
            assert(t@ == s[i as int]);
            if t.status == Status::Done {
                t.status = Status::Archived;
                assert(views(copies@) =~= in_progress_copies(s.take(i + 1), next as nat));
            } else if t.status == Status::InProgress {
                let c = TaskItem::new(next_id, t.title.clone(), Status::Archived, t.active_date, crate::task_item::clone_link(&t.link), None);
                copies.push(c);
                next_id = next_id + 1;
                t.status = Status::Todo;
                assert(views(copies@) =~= before.push(c@));
                assert(views(copies@) =~= in_progress_copies(s.take(i + 1), next as nat));
            } else {
                assert(views(copies@) =~= in_progress_copies(s.take(i + 1), next as nat));
            }
            let ghost tv = t@;
            items.set(i, t);
            assert(views(items@) =~= items_before.update(i as int, tv));
            assert(tv == cleared_in_place(s[i as int]));
            i += 1;
        }
        assert(s.take(s.len() as int) =~= s);
        let ghost done = views(items@);
        items.append(&mut copies);
        assert(done =~= s.map_values(|t: TaskView| cleared_in_place(t)));
        assert(views(items@) =~= done + in_progress_copies(s, next as nat));
        proof {
            reveal_strlit("Archived completed tasks");
        }
        lit_string("Archived completed tasks")
    }
}

/// The id of the task at the 1-based position `index` of the list, if there is one.
pub fn get_task_id_by_index(index: usize, visible: &Vec<TaskItem>) -> (r: Option<usize>)
    requires
        index >= 1,
    ensures
        index <= visible.len() ==> r == Some(visible@[index - 1].id),
        index > visible.len() ==> r is None,
{
    crate::util::get_task_id_by_index_from_list(index, visible)
}

// ---------------------------------------------------------------------------
// Editing a task of a list

/// The lists have the same length, and each task its date.
pub open spec fn same_dates(s: Seq<TaskView>, s2: Seq<TaskView>) -> bool {
    s2.len() == s.len() && forall|k: int| 0 <= k < s.len() ==> #[trigger] s2[k].active_date == s[k].active_date
}

/// What editing the link of the task at `i` of `s` made of the list (`s2`), of
/// what was printed (`p0` before, `p1` after) and of the warnings (`w0`, `w1`),
/// `new` being the answer trimmed: a warning for an empty answer, `No changes made`
/// for the link the task has, and otherwise the task with the new link and
/// `Updated task: ` with it.
pub open spec fn list_link_edit(
    s: Seq<TaskView>,
    i: int,
    new: Seq<char>,
    s2: Seq<TaskView>,
    p0: Seq<char>,
    p1: Seq<char>,
    w0: Seq<char>,
    w1: Seq<char>,
) -> bool {
    if new.len() == 0 {
        s2 == s && p1 == p0 && w1 == w0 + empty_link_warning() + seq!['\n']
    } else if new == link_or_empty(s[i]) {
        s2 == s && p1 == p0 + no_changes_text() + seq!['\n'] && w1 == w0
    } else {
        s2 == s.update(i, TaskView { link: Some(new), ..s[i] }) && p1 == p0 + updated_prefix() + new + seq!['\n'] && w1 == w0
    }
}

/// What giving the task at `i` of `s` the title `new` made of the list and of what
/// was printed: the task with the new title and `Updated task: ` with it if the
/// title differs, else nothing.
pub open spec fn list_title_edit(s: Seq<TaskView>, i: int, new: Seq<char>, s2: Seq<TaskView>, p0: Seq<char>, p1: Seq<char>) -> bool {
    if new != s[i].title {
        s2 == s.update(i, TaskView { title: new, ..s[i] }) && p1 == p0 + updated_prefix() + new + seq!['\n']
    } else {
        s2 == s && p1 == p0
    }
}

/// The warning that asking for an edit failed, with the prompter's reason.
pub open spec fn edit_error_warning(e: FiniError) -> Seq<char> {
    seq!['\u{26a0}', '\u{fe0f}', ' ', 'E', 'r', 'r', 'o', 'r', ' ', 'e', 'd', 'i', 't', 'i', 'n', 'g', ' ', 't', 'a', 's', 'k',
        ':', ' '] + match e {
        FiniError::Prompt(m) => m@,
        _ => Seq::empty(),
    }
}

/// The warning that asking for an edit failed, as a line.
fn edit_error_message(e: &FiniError) -> (r: String)
    ensures
        r@ == edit_error_warning(*e),
{
    proof {
        reveal_strlit("\u{26a0}\u{fe0f} Error editing task: ");
    }
    match e {
        FiniError::Prompt(m) => joined_message("\u{26a0}\u{fe0f} Error editing task: ", m.as_str()),
        _ => {
            let r = lit_string("\u{26a0}\u{fe0f} Error editing task: ");
            assert(r@ =~= edit_error_warning(*e));
            r
        },
    }
}

/// What asking for a new link for the task at `i` of `s` did, for the reply the
/// prompter gave to `Edit link:` (offering the link the task has): a failed
/// question leaves the list and the output as they were, with a warning; an answer
/// is taken as `list_link_edit` says.
pub open spec fn list_link_outcome<P: Prompter>(
    pr: P,
    s: Seq<TaskView>,
    i: int,
    s2: Seq<TaskView>,
    p0: Seq<char>,
    p1: Seq<char>,
    w0: Seq<char>,
    w1: Seq<char>,
) -> bool {
    exists|reply: Result<Seq<char>, FiniError>|
        #[trigger] pr.may_give_edit(edit_link_question(), link_or_empty(s[i]), reply) && match reply {
            Ok(x) => list_link_edit(s, i, trim(x), s2, p0, p1, w0, w1),
            Err(e) => s2 == s && p1 == p0 && w1 == w0 + edit_error_warning(e) + seq!['\n'],
        }
}

/// What editing the task at `i` of `s` did, `new` being the title answered,
/// trimmed: a warning for an empty answer; otherwise the title step, then either
/// the link step (after a yes to `Do you want to edit the link?`) or nothing more
/// (after any other reply).
pub open spec fn list_task_edit<P: Prompter>(
    pr: P,
    s: Seq<TaskView>,
    i: int,
    new: Seq<char>,
    s2: Seq<TaskView>,
    p0: Seq<char>,
    p1: Seq<char>,
    w0: Seq<char>,
    w1: Seq<char>,
) -> bool {
    if new.len() == 0 {
        s2 == s && p1 == p0 && w1 == w0 + empty_title_warning() + seq!['\n']
    } else {
        exists|sm: Seq<TaskView>, pm: Seq<char>| #[trigger] list_title_edit(s, i, new, sm, p0, pm) && {
            ||| pr.may_confirm(edit_link_wanted_question(), Ok(true)) && list_link_outcome(pr, sm, i, s2, pm, p1, w0, w1)
            ||| s2 == sm && p1 == pm && w1 == w0 && exists|x: Result<bool, FiniError>|
                #[trigger] pr.may_confirm(edit_link_wanted_question(), x) && x != Ok::<bool, FiniError>(true)
        }
    }
}

/// What editing the task at `i` of `s` did, for the reply the prompter gave to
/// `Edit task:` (offering the title the task has): a failed question leaves the
/// list and the output as they were, with a warning; an answer is taken as
/// `list_task_edit` says.
pub open spec fn list_edit_outcome<P: Prompter>(
    pr: P,
    s: Seq<TaskView>,
    i: int,
    s2: Seq<TaskView>,
    p0: Seq<char>,
    p1: Seq<char>,
    w0: Seq<char>,
    w1: Seq<char>,
) -> bool {
    exists|reply: Result<Seq<char>, FiniError>|
        #[trigger] pr.may_give_edit(edit_task_question(), s[i].title, reply) && match reply {
            Ok(x) => list_task_edit(pr, s, i, trim(x), s2, p0, p1, w0, w1),
            Err(e) => s2 == s && p1 == p0 && w1 == w0 + edit_error_warning(e) + seq!['\n'],
        }
}

/// What editing the task with the id did to the list: a warning if no task has
/// it; otherwise what `outcome` says of the first task with it.
pub open spec fn list_edited(
    s: Seq<TaskView>,
    id: nat,
    s2: Seq<TaskView>,
    p0: Seq<char>,
    p1: Seq<char>,
    w0: Seq<char>,
    w1: Seq<char>,
    outcome: bool,
) -> bool {
    if find_index(s, id) < 0 {
        s2 == s && p1 == p0 && w1 == w0 + no_task_warning(id) + seq!['\n']
    } else {
        outcome
    }
}

impl Actions {
    /// Asks for a new link for the first task with the id (offering the one it has),
    /// trims the answer, and keeps it if it is new and not empty. Warns if no task
    /// has the id, or if asking fails (then nothing changed).
    pub fn edit_link<P: Prompter, W: Printer>(items: &mut Vec<TaskItem>, id: usize, prompter: &P, printer: &mut W)
        ensures
            list_edited(views(old(items)@), id as nat, views(final(items)@), old(printer).printed(), final(printer).printed(),
                old(printer).warned(), final(printer).warned(),
                list_link_outcome(*prompter, views(old(items)@), find_index(views(old(items)@), id as nat), views(final(items)@),
                    old(printer).printed(), final(printer).printed(), old(printer).warned(), final(printer).warned())),
            same_dates(views(old(items)@), views(final(items)@)),
    {
        let ghost s = views(items@);
        proof {
            lemma_find_index(s, id as nat);
        }
        let i = match find_task(items, id) {
            None => {
                let w = no_task_message(id);
                printer.warn(w.as_str());
                return;
            },
            Some(i) => i,
        };
        let current = match &items[i].link {
            Some(l) => l.clone(),
            None => String::new(),
        };
        let answer = prompter.text_with_initial("Edit link:", current.as_str());
        proof {
            reveal_strlit("Edit link:");
            assert("Edit link:"@ =~= edit_link_question());
            assert(current@ == link_or_empty(s[i as int]));
            assert(prompter.may_give_edit(edit_link_question(), link_or_empty(s[i as int]), text_reply(answer)));
        }
        let reply = match answer {
            Ok(x) => x,
            Err(e) => {
                let w = edit_error_message(&e);
                printer.warn(w.as_str());
                return;
            },
        };
        let new_link = trimmed(reply.as_str());
        if new_link.as_str().is_empty() {
            printer.warn("\u{26a0}\u{fe0f} link cannot be empty");
            proof {
                reveal_strlit("\u{26a0}\u{fe0f} link cannot be empty");
            }
            assert(printer.warned() =~= old(printer).warned() + empty_link_warning() + seq!['\n']);
            assert(list_link_edit(s, i as int, trim(reply@), views(items@), old(printer).printed(), printer.printed(),
                old(printer).warned(), printer.warned()));
            return;
        }
        if new_link == current {
            printer.print("No changes made");
            proof {
                reveal_strlit("No changes made");
            }
            assert(printer.printed() =~= old(printer).printed() + no_changes_text() + seq!['\n']);
            assert(list_link_edit(s, i as int, trim(reply@), views(items@), old(printer).printed(), printer.printed(),
                old(printer).warned(), printer.warned()));
            return;
        }
        let m = joined_message("Updated task: ", new_link.as_str());
        printer.print(m.as_str());
        proof {
            reveal_strlit("Updated task: ");
        }
        assert(printer.printed() =~= old(printer).printed() + updated_prefix() + new_link@ + seq!['\n']);
        let mut t = items[i].clone();
        t.link = Some(new_link);
        let ghost tv = t@;
        items.set(i, t);
        assert(views(items@) =~= s.update(i as int, tv));
        assert(list_link_edit(s, i as int, trim(reply@), views(items@), old(printer).printed(), printer.printed(),
            old(printer).warned(), printer.warned()));
    }

    /// Asks for a new title for the first task with the id (offering the one it
    /// has) and keeps it, trimmed, if it is new; unless the answer is empty, then
    /// asks whether to edit the link (a failed question counts as a no), and does
    /// so if the user wants. Warns if no task has the id, or if asking for a text
    /// fails.
    pub fn edit<P: Prompter, W: Printer>(items: &mut Vec<TaskItem>, id: usize, prompter: &P, printer: &mut W)
        ensures
            list_edited(views(old(items)@), id as nat, views(final(items)@), old(printer).printed(), final(printer).printed(),
                old(printer).warned(), final(printer).warned(),
                list_edit_outcome(*prompter, views(old(items)@), find_index(views(old(items)@), id as nat), views(final(items)@),
                    old(printer).printed(), final(printer).printed(), old(printer).warned(), final(printer).warned())),
            same_dates(views(old(items)@), views(final(items)@)),
    {
        let ghost s = views(items@);
        proof {
            lemma_find_index(s, id as nat);
        }
        let i = match find_task(items, id) {
            None => {
                let w = no_task_message(id);
                printer.warn(w.as_str());
                return;
            },
            Some(i) => i,
        };
        let answer = prompter.text_with_initial("Edit task:", items[i].title.as_str());
        proof {
            reveal_strlit("Edit task:");
            assert("Edit task:"@ =~= edit_task_question());
            assert(prompter.may_give_edit(edit_task_question(), s[i as int].title, text_reply(answer)));
        }
        let reply = match answer {
            Ok(x) => x,
            Err(e) => {
                let w = edit_error_message(&e);
                printer.warn(w.as_str());
                return;
            },
        };
        let new_title = trimmed(reply.as_str());
        if new_title.as_str().is_empty() {
            printer.warn("\u{26a0}\u{fe0f} Title cannot be empty");
            proof {
                reveal_strlit("\u{26a0}\u{fe0f} Title cannot be empty");
            }
            assert(printer.warned() =~= old(printer).warned() + empty_title_warning() + seq!['\n']);
            assert(list_task_edit(*prompter, s, i as int, trim(reply@), views(items@), old(printer).printed(), printer.printed(),
                old(printer).warned(), printer.warned()));
            return;
        }
        if !(new_title == items[i].title) {
            let mut t = items[i].clone();
            t.title = new_title.clone();
            let ghost tv = t@;
            items.set(i, t);
            assert(views(items@) =~= s.update(i as int, tv));
            let m = joined_message("Updated task: ", new_title.as_str());
            printer.print(m.as_str());
            proof {
                reveal_strlit("Updated task: ");
            }
            assert(printer.printed() =~= old(printer).printed() + updated_prefix() + new_title@ + seq!['\n']);
        }
        let ghost sm = views(items@);
        let ghost pm = printer.printed();
        assert(list_title_edit(s, i as int, new_title@, sm, old(printer).printed(), pm));
        assert(list_title_edit(s, i as int, trim(reply@), sm, old(printer).printed(), pm));
        let wanted = prompter.confirm("Do you want to edit the link?");
        proof {
            reveal_strlit("Do you want to edit the link?");
            assert("Do you want to edit the link?"@ =~= edit_link_wanted_question());
            assert(prompter.may_confirm(edit_link_wanted_question(), wanted));
        }
        let wants_link = match wanted {
            Ok(b) => b,
            Err(_) => false,
        };
        if wants_link {
            proof {
                lemma_find_index(sm, id as nat);
                if find_index(sm, id as nat) != i {
                    assert(sm[i as int].id == id as nat);
                }
            }
            Actions::edit_link(items, id, prompter, printer);
        }
        assert(list_task_edit(*prompter, s, i as int, trim(reply@), views(items@), old(printer).printed(), printer.printed(),
            old(printer).warned(), printer.warned()));
    }
}

// ---------------------------------------------------------------------------
// The listing of the archive

/// A task the archive listing shows: an archived task with a date.
pub open spec fn listed_archived(t: TaskView) -> bool {
    t.status == Status::Archived && t.active_date is Some
}

/// The date the listing is at after the tasks: that of the last task it shows, or
/// none before any.
pub open spec fn prev_listed_date(s: Seq<TaskView>) -> Option<Date>
    decreases s.len(),
{
    if s.len() == 0 {
        None
    } else if listed_archived(s.last()) {
        s.last().active_date
    } else {
        prev_listed_date(s.drop_last())
    }
}

/// `line` is a date line of the listing: a line break, a space, and the date as
/// `chrono` writes it, in green.
pub open spec fn date_line(d: Date, line: Seq<char>) -> bool {
    &&& line.len() >= 2
    &&& line.take(2) == seq!['\n', ' ']
    &&& painted(line.skip(2), green_code(), naive_date_text(d.year, d.month, d.day))
}

/// `line` is a task line of the listing: two spaces, then the task's star, its
/// status symbol, two spaces, the title and the link dimmed after it.
pub open spec fn archived_entry_line(t: TaskView, line: Seq<char>) -> bool {
    &&& line.len() >= 2
    &&& line.take(2) == seq![' ', ' ']
    &&& exists|star: Seq<char>, status: Seq<char>, text: Seq<char>|
        #[trigger] status_parts(t, LinkFormat::AdjacentColor, star, status, text, line.skip(2))
}

/// `lines` list the archived tasks of `s` that have a date, in order, each after a
/// date line when its date differs from that of the task listed before it (the
/// first always after one).
pub open spec fn archive_listing(s: Seq<TaskView>, lines: Seq<Seq<char>>) -> bool
    decreases s.len(),
{
    if s.len() == 0 {
        lines.len() == 0
    } else if !listed_archived(s.last()) {
        archive_listing(s.drop_last(), lines)
    } else if s.last().active_date != prev_listed_date(s.drop_last()) {
        &&& lines.len() >= 2
        &&& date_line(s.last().active_date->0, lines[lines.len() - 2])
        &&& archived_entry_line(s.last(), lines.last())
        &&& archive_listing(s.drop_last(), lines.take(lines.len() - 2))
    } else {
        &&& lines.len() >= 1
        &&& archived_entry_line(s.last(), lines.last())
        &&& archive_listing(s.drop_last(), lines.drop_last())
    }
}

/// A copy of the tasks.
fn copy_items(items: &Vec<TaskItem>) -> (r: Vec<TaskItem>)
    ensures
        r@ == items@,
{
    let mut r: Vec<TaskItem> = Vec::new();
    let mut i: usize = 0;
    while i < items.len()
        invariant
            i <= items.len(),
            r@ == items@.take(i as int),
        decreases items.len() - i,
    {
        r.push(items[i].clone());
        assert(r@ =~= items@.take(i + 1));
        i += 1;
    }
    assert(items@.take(i as int) =~= items@);
    r
}

impl Actions {
    /// The lines that list the archived tasks by date: the tasks ordered by date
    /// (those without one first, equal dates in their order), and of them the
    /// archived ones that have a date, each with its star, status and link, after a
    /// green date line where the date changes.
    pub fn archived(items: &Vec<TaskItem>) -> (r: Vec<String>)
        requires
            dates_valid(views(items@)),
        ensures
            archive_listing(stable_sort(SortKey::ByDate, views(items@)), texts(r@)),
    {
        let sorted = sort_tasks(copy_items(items), SortKey::ByDate);
        let ghost vs = views(sorted@);
        proof {
            lemma_stable_sort_members(SortKey::ByDate, views(items@));
            assert forall|j: int| 0 <= j < vs.len() implies date_ok(#[trigger] vs[j]) by {
                assert(vs.contains(vs[j]));
                let i = choose|i: int| 0 <= i < views(items@).len() && views(items@)[i] == vs[j];
                assert(date_ok(views(items@)[i]));
            }
        }
        let mut lines: Vec<String> = Vec::new();
        let mut current: Option<Date> = None;
        let mut k: usize = 0;
        assert(vs.take(0) =~= Seq::<TaskView>::empty());
        assert(texts(lines@) =~= Seq::<Seq<char>>::empty());
        while k < sorted.len()
            invariant
                k <= sorted.len(),
                vs == views(sorted@),
                vs == stable_sort(SortKey::ByDate, views(items@)),
                forall|j: int| 0 <= j < vs.len() ==> date_ok(#[trigger] vs[j]),
                archive_listing(vs.take(k as int), texts(lines@)),
                current == prev_listed_date(vs.take(k as int)),
            decreases sorted.len() - k,
        {
            let t = &sorted[k];
            let ghost before = texts(lines@);
            assert(vs[k as int] == t@);
            assert(vs.take(k + 1).drop_last() =~= vs.take(k as int));
            assert(vs.take(k + 1).last() == t@);
            match (t.status, t.active_date) {
                (Status::Archived, Some(d)) => {
                    assert(date_ok(vs[k as int]));
                    let new_date = match current {
                        Some(c) => !d.same_as(&c),
                        None => true,
                    };
                    if new_date {
                        let mut h = lit_string("\n ");
                        proof {
                            reveal_strlit("\n ");
                        }
                        let dt = date_text(d);
                        let g = green(dt.as_str());
                        push_str(&mut h, g.as_str());
                        assert(h@.take(2) =~= seq!['\n', ' ']);
                        assert(h@.skip(2) =~= g@);
                        lines.push(h);
                    }
                    let ghost mid = texts(lines@);
                    let mut line = lit_string("  ");
                    proof {
                        reveal_strlit("  ");
                    }
                    let body = status_line_string(t, LinkFormat::AdjacentColor);
                    push_str(&mut line, body.as_str());
                    assert(line@.take(2) =~= seq![' ', ' ']);
                    assert(line@.skip(2) =~= body@);
                    lines.push(line);
                    proof {
                        assert(texts(lines@) =~= mid.push(line@));
                        if new_date {
                            assert(mid =~= before.push(mid.last()));
                            assert(texts(lines@).take(texts(lines@).len() - 2) =~= before);
                        } else {
                            assert(mid =~= before);
                            assert(texts(lines@).drop_last() =~= before);
                        }
                    }
                    current = Some(d);
                },
                _ => {},
            }
            k += 1;
        }
        assert(vs.take(k as int) =~= vs);
        lines
    }
}

} // verus!
