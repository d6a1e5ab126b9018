//! The operations on task lists: numbering, filtering, toggling, archiving and
//! clearing, each stated as what it makes of the list.

use vstd::prelude::*;
use crate::date::Date;
use crate::sort::{SortKey, stable_sort, sort_tasks, ordered_from, law_stable_sort_orders};
use crate::task_item::{Status, TaskItem, TaskView, views, clone_link};
use crate::text::push_str;
use crate::error::FiniError;
use crate::markdown::{dates_valid, all_dated, date_ok, dated_ok, archive_text_is, archived_tasks_as_markdown};
use crate::commands::LinkFormat;
use crate::roundtrip::{archive_file_text, lemma_markdown_archive_text};
use crate::task_item::{shows_with_index, shows_link, adjacent_text, adjacent_string, get_task_link_for_format};
use crate::prompter::{Prompter, text_reply, always_replies};
use crate::text::{trim, chars_of, trim_vec, string_of, decimal, decimal_string};
use crate::copier::{Copier, CopyContent, CopyPayload, TextPayload, HtmlPayload, PayloadView};
use crate::printer::{Printer, printed_lines, print_all};
use crate::storage::{
    TaskStorage, tasks_now, archive_now, written_tasks, written_archive, read_error, same_boards,
};

verus! {

/// The largest id of the tasks, 0 if there are none.
pub open spec fn max_id(s: Seq<TaskView>) -> nat
    decreases s.len(),
{
    if s.len() == 0 {
        0
    } else {
        let m = max_id(s.drop_last());
        if s.last().id > m { s.last().id } else { m }
    }
}

/// The id for a new task: one more than the largest id (1 for an empty list).
pub open spec fn next_id_of(s: Seq<TaskView>) -> nat {
    max_id(s) + 1
}

/// Law: the id for a new task is larger than every id of the list.
pub proof fn lemma_next_id_fresh(s: Seq<TaskView>)
    ensures
        forall|i: int| 0 <= i < s.len() ==> #[trigger] s[i].id < next_id_of(s),
    decreases s.len(),
{
    if s.len() > 0 {
        lemma_next_id_fresh(s.drop_last());
        assert forall|i: int| 0 <= i < s.len() implies #[trigger] s[i].id < next_id_of(s) by {
            if i < s.len() - 1 {
                assert(s.drop_last()[i] == s[i]);
            }
        }
    }
}

/// The largest id of the tasks, 0 if there are none.
pub fn max_task_id(items: &Vec<TaskItem>) -> (r: usize)
    ensures
        r == max_id(views(items@)),
{
    let mut m: usize = 0;
    let mut i: usize = 0;
    while i < items.len()
        invariant
            i <= items.len(),
            m == max_id(views(items@.take(i as int))),
        decreases items.len() - i,
    {
        assert(views(items@.take(i + 1)).drop_last() =~= views(items@.take(i as int)));
        assert(views(items@.take(i + 1)).last() == items@[i as int]@);
        if items[i].id > m {
            m = items[i].id;
        }
        i += 1;
    }
    assert(items@.take(items.len() as int) =~= items@);
    m
}

/// The id for a new task (`get_next_id`): one more than the largest id.
pub fn get_next_id(items: &Vec<TaskItem>) -> (r: usize)
    requires
        max_id(views(items@)) < usize::MAX,
    ensures
        r == next_id_of(views(items@)),
{
    max_task_id(items) + 1
}

proof fn lemma_max_id_bound(s: Seq<TaskView>)
    ensures
        max_id(s) == 0 || exists|i: int| 0 <= i < s.len() && s[i].id == max_id(s),
    decreases s.len(),
{
    if s.len() > 0 {
        lemma_max_id_bound(s.drop_last());
        if max_id(s.drop_last()) != 0 && s.last().id <= max_id(s.drop_last()) {
            let i = choose|i: int| 0 <= i < s.drop_last().len() && s.drop_last()[i].id == max_id(s.drop_last());
            assert(s[i] == s.drop_last()[i]);
        }
    }
}

/// A task that the list shows: one that is to do, in progress, or done.
pub open spec fn is_visible(t: TaskView) -> bool {
    t.status != Status::Archived
}

/// The tasks the list shows, in their order.
pub open spec fn visible(s: Seq<TaskView>) -> Seq<TaskView> {
    s.filter(|t: TaskView| is_visible(t))
}

/// The tasks the list shows, as it shows them: unfinished before done, starred first
/// (`sort_visible_items`).
pub open spec fn visible_sorted(s: Seq<TaskView>) -> Seq<TaskView> {
    stable_sort(SortKey::DoneThenStar, visible(s))
}

/// The tasks the list shows, in their order (copies).
pub fn visible_items(items: &Vec<TaskItem>) -> (r: Vec<TaskItem>)
    ensures
        views(r@) == visible(views(items@)),
{
    let mut r: Vec<TaskItem> = Vec::new();
    let mut i: usize = 0;
    while i < items.len()
        invariant
            i <= items.len(),
            views(r@) == visible(views(items@.take(i as int))),
        decreases items.len() - i,
    {
        let ghost before = views(items@.take(i as int));
        assert(views(items@.take(i + 1)).drop_last() =~= before);
        assert(views(items@.take(i + 1)).last() == items@[i as int]@);
        reveal(Seq::filter);
        if items[i].status != Status::Archived {
            let t = items[i].clone();
            r.push(t);
            assert(views(r@) =~= visible(before).push(t@));
        }
        i += 1;
    }
    proof {
        reveal(Seq::filter);
        assert(items@.take(items.len() as int) =~= items@);
        assert(views(items@.take(0)) =~= Seq::<TaskView>::empty());
    }
    r
}

/// The tasks the list shows, as it shows them (`sort_visible_items`).
pub fn sort_visible_items(items: &Vec<TaskItem>) -> (r: Vec<TaskItem>)
    ensures
        views(r@) == visible_sorted(views(items@)),
{
    let v = visible_items(items);
    sort_tasks(v, SortKey::DoneThenStar)
}


/// Where the first task with the id stands, or -1 if no task has it.
pub open spec fn find_index(s: Seq<TaskView>, id: nat) -> int
    decreases s.len(),
{
    if s.len() == 0 {
        -1
    } else if s[0].id == id {
        0
    } else {
        let r = find_index(s.drop_first(), id);
        if r < 0 { -1 } else { r + 1 }
    }
}

pub proof fn lemma_find_index(s: Seq<TaskView>, id: nat)
    ensures
        -1 <= find_index(s, id) < s.len(),
        find_index(s, id) >= 0 ==> s[find_index(s, id)].id == id,
        find_index(s, id) >= 0 ==> forall|k: int| 0 <= k < find_index(s, id) ==> #[trigger] s[k].id != id,
        find_index(s, id) < 0 ==> forall|k: int| 0 <= k < s.len() ==> #[trigger] s[k].id != id,
    decreases s.len(),
{
    if s.len() > 0 && s[0].id != id {
        lemma_find_index(s.drop_first(), id);
        assert forall|k: int| 1 <= k < s.len() implies s[k].id == s.drop_first()[k - 1].id by {}
    }
}

proof fn lemma_find_index_at(s: Seq<TaskView>, id: nat, i: int)
    requires
        0 <= i < s.len(),
        s[i].id == id,
        forall|k: int| 0 <= k < i ==> #[trigger] s[k].id != id,
    ensures
        find_index(s, id) == i,
    decreases i,
{
    if i > 0 {
        assert forall|k: int| 0 <= k < i - 1 implies #[trigger] s.drop_first()[k].id != id by {
            assert(s.drop_first()[k] == s[k + 1]);
        }
        lemma_find_index_at(s.drop_first(), id, i - 1);
    }
}

proof fn lemma_find_index_none(s: Seq<TaskView>, id: nat)
    requires
        forall|k: int| 0 <= k < s.len() ==> #[trigger] s[k].id != id,
    ensures
        find_index(s, id) == -1,
    decreases s.len(),
{
    if s.len() > 0 {
        assert forall|k: int| 0 <= k < s.len() - 1 implies #[trigger] s.drop_first()[k].id != id by {
            assert(s.drop_first()[k] == s[k + 1]);
        }
        lemma_find_index_none(s.drop_first(), id);
    }
}

/// Where the first task with the id stands, if any.
pub fn find_task(items: &Vec<TaskItem>, id: usize) -> (r: Option<usize>)
    ensures
        r matches Some(i) ==> find_index(views(items@), id as nat) == i && i < items.len(),
        r is None ==> find_index(views(items@), id as nat) == -1,
{
    let ghost vs = views(items@);
    let mut i: usize = 0;
    while i < items.len()
        invariant
            i <= items.len(),
            vs == views(items@),
            forall|k: int| 0 <= k < i ==> #[trigger] vs[k].id != id,
        decreases items.len() - i,
    {
        assert(vs[i as int].id == items[i as int].id);
        if items[i].id == id {
            proof {
                lemma_find_index_at(vs, id as nat, i as int);
            }
            return Some(i);
        }
        i += 1;
    }
    proof {
        lemma_find_index_none(vs, id as nat);
    }
    None
}

/// The toggles that a list of ids can be given.
#[derive(Clone, Copy, Debug, PartialEq, Eq, Structural)]
pub enum Toggle {
    /// In progress, or back to do (`work`).
    Begin,
    /// Done, or back to do (`done`).
    Check,
    /// Starred, or not (`star`).
    Star,
}

/// A task toggled: begun (dated today) or, if in progress, back to do (undated);
/// checked (dated today) or, if done, back to do (undated); starred, or, if starred,
/// unstarred.
pub open spec fn toggled(kind: Toggle, t: TaskView, today: Date) -> TaskView {
    match kind {
        Toggle::Begin => if t.status == Status::InProgress {
            TaskView { status: Status::Todo, active_date: None, ..t }
        } else {
            TaskView { status: Status::InProgress, active_date: Some(today), ..t }
        },
        Toggle::Check => if t.status == Status::Done {
            TaskView { status: Status::Todo, active_date: None, ..t }
        } else {
            TaskView { status: Status::Done, active_date: Some(today), ..t }
        },
        Toggle::Star => if t.star == Some(true) {
            TaskView { star: None, ..t }
        } else {
            TaskView { star: Some(true), ..t }
        },
    }
}

pub open spec fn moved_back_prefix() -> Seq<char> {
    seq!['M', 'o', 'v', 'e', 'd', ' ', 't', 'a', 's', 'k', ' ', 'b', 'a', 'c', 'k', ' ', 't', 'o', ' ', 't', 'o', 'd', 'o', ':', ' ']
}

pub open spec fn started_prefix() -> Seq<char> {
    seq!['S', 't', 'a', 'r', 't', 'e', 'd', ' ', 't', 'a', 's', 'k', ':', ' ']
}

pub open spec fn completed_prefix() -> Seq<char> {
    seq!['C', 'o', 'm', 'p', 'l', 'e', 't', 'e', 'd', ' ', 't', 'a', 's', 'k', ':', ' ']
}

/// What is printed for a task that is toggled, if anything.
pub open spec fn toggle_message(kind: Toggle, t: TaskView) -> Seq<Seq<char>> {
    match kind {
        Toggle::Begin => if t.status == Status::InProgress {
            seq![moved_back_prefix() + t.title]
        } else {
            seq![started_prefix() + t.title]
        },
        Toggle::Check => if t.status == Status::Done {
            seq![moved_back_prefix() + t.title]
        } else {
            seq![completed_prefix() + t.title]
        },
        Toggle::Star => Seq::empty(),
    }
}

/// Where toggling a list of ids has got to: the tasks, the lines printed, and the
/// first id that no task has, if one was met (toggling stops there).
pub struct ToggleRun {
    pub tasks: Seq<TaskView>,
    pub lines: Seq<Seq<char>>,
    pub missing: Option<nat>,
}

/// Toggling the tasks with the ids, one id after the other, up to the first id that
/// no task has.
pub open spec fn toggle_all(kind: Toggle, s: Seq<TaskView>, ids: Seq<usize>, today: Date) -> ToggleRun
    decreases ids.len(),
{
    if ids.len() == 0 {
        ToggleRun { tasks: s, lines: Seq::empty(), missing: None }
    } else {
        let r = toggle_all(kind, s, ids.drop_last(), today);
        if r.missing is Some {
            r
        } else {
            let i = find_index(r.tasks, ids.last() as nat);
            if i < 0 {
                ToggleRun { tasks: r.tasks, lines: r.lines, missing: Some(ids.last() as nat) }
            } else {
                ToggleRun {
                    tasks: r.tasks.update(i, toggled(kind, r.tasks[i], today)),
                    lines: r.lines + toggle_message(kind, r.tasks[i]),
                    missing: None,
                }
            }
        }
    }
}

pub(crate) fn lit_string(s: &str) -> (r: String)
    ensures
        r@ == s@,
{
    let mut r = String::new();
    push_str(&mut r, s);
    r
}

/// The task toggled, and the line printed for it, if any.
pub(crate) fn toggle_one(kind: Toggle, t: &mut TaskItem, today: Date) -> (msg: Option<String>)
    ensures
        final(t)@ == toggled(kind, old(t)@, today),
        toggle_message(kind, old(t)@) == (match msg {
            Some(m) => seq![m@],
            None => Seq::<Seq<char>>::empty(),
        }),
{
    proof {
        reveal_strlit("Moved task back to todo: ");
        reveal_strlit("Started task: ");
        reveal_strlit("Completed task: ");
    }
    match kind {
        Toggle::Begin => {
            let mut m;
            if t.status == Status::InProgress {
                m = lit_string("Moved task back to todo: ");
                t.status = Status::Todo;
                t.active_date = None;
            } else {
                m = lit_string("Started task: ");
                t.status = Status::InProgress;
                t.active_date = Some(today);
            }
            push_str(&mut m, t.title.as_str());
            assert(m@ =~= moved_back_prefix() + old(t).title@ || m@ =~= started_prefix() + old(t).title@);
            assert(toggle_message(kind, old(t)@) =~= seq![m@]);
            Some(m)
        },
        Toggle::Check => {
            let mut m;
            if t.status == Status::Done {
                m = lit_string("Moved task back to todo: ");
                t.status = Status::Todo;
                t.active_date = None;
            } else {
                m = lit_string("Completed task: ");
                t.status = Status::Done;
                t.active_date = Some(today);
            }
            push_str(&mut m, t.title.as_str());
            assert(m@ =~= moved_back_prefix() + old(t).title@ || m@ =~= completed_prefix() + old(t).title@);
            assert(toggle_message(kind, old(t)@) =~= seq![m@]);
            Some(m)
        },
        Toggle::Star => {
            if t.star == Some(true) {
                t.star = None;
            } else {
                t.star = Some(true);
            }
            None
        },
    }
}

/// The views of strings.
pub open spec fn texts(s: Seq<String>) -> Seq<Seq<char>> {
    s.map_values(|x: String| x@)
}

/// Toggles the tasks with the ids, one after the other, up to the first id that no
/// task has: the lines to print for them, and that id if there was one.
pub fn toggle_tasks(kind: Toggle, tasks: &mut Vec<TaskItem>, ids: &Vec<usize>, today: Date) -> (r: (Vec<String>, Option<usize>))
    ensures
        views(final(tasks)@) == toggle_all(kind, views(old(tasks)@), ids@, today).tasks,
        texts(r.0@) == toggle_all(kind, views(old(tasks)@), ids@, today).lines,
        (match r.1 {
            Some(id) => toggle_all(kind, views(old(tasks)@), ids@, today).missing == Some(id as nat),
            None => toggle_all(kind, views(old(tasks)@), ids@, today).missing is None,
        }),
{
    let ghost start = views(tasks@);
    let mut lines: Vec<String> = Vec::new();
    let mut k: usize = 0;
    assert(ids@.take(0) =~= Seq::<usize>::empty());
    assert(texts(lines@) =~= Seq::<Seq<char>>::empty());
    while k < ids.len()
        invariant
            k <= ids.len(),
            start == views(old(tasks)@),
            toggle_all(kind, start, ids@.take(k as int), today).missing is None,
            views(tasks@) == toggle_all(kind, start, ids@.take(k as int), today).tasks,
            texts(lines@) == toggle_all(kind, start, ids@.take(k as int), today).lines,
        decreases ids.len() - k,
    {
        let id = ids[k];
        assert(ids@.take(k + 1).drop_last() =~= ids@.take(k as int));
        assert(ids@.take(k + 1).last() == id);
        match find_task(tasks, id) {
            None => {
                proof {
                    let r = toggle_all(kind, start, ids@.take(k as int), today);
                    assert(find_index(r.tasks, id as nat) == -1);
                    assert(toggle_all(kind, start, ids@.take(k + 1), today).missing == Some(id as nat));
                    lemma_toggle_stops(kind, start, ids@, k + 1, today);
                    assert(toggle_all(kind, start, ids@.take(k + 1), today).tasks == r.tasks);
                    assert(toggle_all(kind, start, ids@.take(k + 1), today).lines == r.lines);
                    assert(views(tasks@) == toggle_all(kind, start, ids@, today).tasks);
                }
                return (lines, Some(id));
            },
            Some(i) => {
                let ghost before = views(tasks@);
                let ghost lines_before = texts(lines@);
                let mut t = tasks[i].clone();
                let msg = toggle_one(kind, &mut t, today);
                tasks.set(i, t);
                assert(views(tasks@) =~= before.update(i as int, toggled(kind, before[i as int], today)));
                match msg {
                    Some(m) => {
                        lines.push(m);
                        assert(texts(lines@) =~= lines_before + toggle_message(kind, before[i as int]));
                    },
                    None => {
                        assert(texts(lines@) =~= lines_before + toggle_message(kind, before[i as int]));
                    },
                }
            },
        }
        k += 1;
    }
    assert(ids@.take(ids.len() as int) =~= ids@);
    (lines, None)
}

/// Once toggling has stopped at a missing id, later ids change nothing.
proof fn lemma_toggle_stops(kind: Toggle, s: Seq<TaskView>, ids: Seq<usize>, k: int, today: Date)
    requires
        0 < k <= ids.len(),
        toggle_all(kind, s, ids.take(k), today).missing is Some,
    ensures
        toggle_all(kind, s, ids, today) == toggle_all(kind, s, ids.take(k), today),
    decreases ids.len() - k,
{
    if k < ids.len() {
        assert(ids.take(k + 1).drop_last() =~= ids.take(k));
        lemma_toggle_stops(kind, s, ids, k + 1, today);
    } else {
        assert(ids.take(k) =~= ids);
    }
}


/// The id is among the ids.
pub open spec fn id_in(ids: Seq<usize>, id: nat) -> bool {
    exists|k: int| 0 <= k < ids.len() && ids[k] as nat == id
}

/// Whether the id is among the ids.
pub fn contains_id(ids: &Vec<usize>, id: usize) -> (r: bool)
    ensures
        r == id_in(ids@, id as nat),
{
    let mut k: usize = 0;
    while k < ids.len()
        invariant
            k <= ids.len(),
            forall|j: int| 0 <= j < k ==> ids@[j] != id,
        decreases ids.len() - k,
    {
        if ids[k] == id {
            return true;
        }
        k += 1;
    }
    false
}

/// The tasks whose ids are not among the ids.
pub open spec fn without_ids(s: Seq<TaskView>, ids: Seq<usize>) -> Seq<TaskView> {
    s.filter(|t: TaskView| !id_in(ids, t.id))
}

/// The tasks whose ids are among the ids, in their order.
pub open spec fn with_ids(s: Seq<TaskView>, ids: Seq<usize>) -> Seq<TaskView> {
    s.filter(|t: TaskView| id_in(ids, t.id))
}

/// Keeps the tasks whose ids are (or are not) among the ids, in their order.
pub fn select_by_ids(tasks: Vec<TaskItem>, ids: &Vec<usize>, keep_listed: bool) -> (r: Vec<TaskItem>)
    ensures
        keep_listed ==> views(r@) == with_ids(views(tasks@), ids@),
        !keep_listed ==> views(r@) == without_ids(views(tasks@), ids@),
{
    let ghost input = views(tasks@);
    let ghost items = tasks@;
    let mut r: Vec<TaskItem> = Vec::new();
    proof {
        reveal(Seq::filter);
        assert(input.take(0) =~= Seq::<TaskView>::empty());
    }
    for t in it: tasks
        invariant
            it.seq() == items,
            input == views(items),
            keep_listed ==> views(r@) == with_ids(input.take(it.index() as int), ids@),
            !keep_listed ==> views(r@) == without_ids(input.take(it.index() as int), ids@),
    {
        let ghost i = it.index();
        assert(input.take(i + 1).drop_last() =~= input.take(i as int));
        assert(input.take(i + 1).last() == t@);
        let ghost before = views(r@);
        reveal(Seq::filter);
        if contains_id(ids, t.id) == keep_listed {
            r.push(t);
            assert(views(r@) =~= before.push(t@));
        }
    }
    assert(input.take(input.len() as int) =~= input);
    r
}

/// Deletes the tasks whose ids are among the ids (what `delete` writes back).
pub fn delete_ids(tasks: Vec<TaskItem>, ids: &Vec<usize>) -> (r: Vec<TaskItem>)
    ensures
        views(r@) == without_ids(views(tasks@), ids@),
{
    select_by_ids(tasks, ids, false)
}

/// The tasks whose ids are among the ids, in their order (`get_tasks_for_ids`).
pub fn get_tasks_for_ids(tasks: Vec<TaskItem>, ids: &Vec<usize>) -> (r: Vec<TaskItem>)
    ensures
        views(r@) == with_ids(views(tasks@), ids@),
{
    select_by_ids(tasks, ids, true)
}

/// A new task: to do, with no date and no star.
pub open spec fn new_task(id: nat, title: Seq<char>, link: Option<Seq<char>>) -> TaskView {
    TaskView { id, title, status: Status::Todo, active_date: None, link, star: None }
}

/// Adds a new task with the next id; the id.
pub fn add_task(tasks: &mut Vec<TaskItem>, title: String, link: Option<String>) -> (r: usize)
    requires
        max_id(views(old(tasks)@)) < usize::MAX,
    ensures
        r == next_id_of(views(old(tasks)@)),
        views(final(tasks)@) == views(old(tasks)@).push(new_task(r as nat, title@, crate::task_item::link_view(link))),
{
    let id = get_next_id(tasks);
    let item = TaskItem::new(id, title, Status::Todo, None, link, None);
    tasks.push(item);
    assert(views(tasks@) =~= views(old(tasks)@).push(item@));
    id
}

/// The copy of a task that goes to the archive: archived, without a star.
pub open spec fn archived_copy(t: TaskView) -> TaskView {
    TaskView {
        id: t.id,
        title: t.title,
        status: Status::Archived,
        active_date: t.active_date,
        link: t.link,
        star: None,
    }
}

/// The archived copy of a task, with the given id.
fn archive_copy_item(t: &TaskItem, id: usize) -> (r: TaskItem)
    ensures
        r@ == (TaskView { id: id as nat, ..archived_copy(t@) }),
{
    TaskItem::new(id, t.title.clone(), Status::Archived, t.active_date, clone_link(&t.link), None)
}

pub open spec fn archived_prefix() -> Seq<char> {
    seq!['A', 'r', 'c', 'h', 'i', 'v', 'e', 'd', ' ', 't', 'a', 's', 'k', ':', ' ']
}

/// The warning that no task has the id: `⚠️ No task found with id ` and the id.
pub open spec fn no_task_warning(id: nat) -> Seq<char> {
    seq!['\u{26a0}', '\u{fe0f}', ' ', 'N', 'o', ' ', 't', 'a', 's', 'k', ' ', 'f', 'o', 'u', 'n', 'd', ' ', 'w', 'i',
        't', 'h', ' ', 'i', 'd', ' '] + decimal(id)
}

/// The warning that the task is archived already.
pub open spec fn already_archived_text() -> Seq<char> {
    seq!['T', 'a', 's', 'k', ' ', 'a', 'l', 'r', 'e', 'a', 'd', 'y', ' ', 'a', 'r', 'c', 'h', 'i', 'v', 'e', 'd']
}

/// The warning line about an id that no task has, if there is one.
pub open spec fn missing_warning(m: Option<nat>) -> Seq<char> {
    match m {
        Some(id) => no_task_warning(id) + seq!['\n'],
        None => Seq::empty(),
    }
}

/// A warning as a line, if there is one.
pub open spec fn warning_line(w: Seq<char>) -> Seq<char> {
    if w.len() == 0 { Seq::empty() } else { w + seq!['\n'] }
}

/// The warning that no task has the id.
pub(crate) fn no_task_message(id: usize) -> (r: String)
    ensures
        r@ == no_task_warning(id as nat),
{
    let n = decimal_string(id);
    let r = joined_message("\u{26a0}\u{fe0f} No task found with id ", n.as_str());
    proof {
        reveal_strlit("\u{26a0}\u{fe0f} No task found with id ");
    }
    assert(r@ =~= no_task_warning(id as nat));
    r
}

/// Where archiving a list of ids has got to: the tasks, the archive, the lines
/// printed, and whether it stopped (at an id that no task has, or at a task that was
/// archived already).
pub struct ArchiveRun {
    pub tasks: Seq<TaskView>,
    pub archived: Seq<TaskView>,
    pub lines: Seq<Seq<char>>,
    pub stopped: bool,
    pub warning: Seq<char>,
}

/// A task marked archived, dated today if it had no date.
pub open spec fn marked_archived(t: TaskView, today: Date) -> TaskView {
    TaskView {
        status: Status::Archived,
        active_date: if t.active_date is None { Some(today) } else { t.active_date },
        ..t
    }
}

/// Archiving the tasks with the ids, one id after the other: each is marked
/// archived (dated today if undated) and a copy goes to the archive; it stops at an
/// id that no task has or at a task that is archived already.
pub open spec fn archive_all(s: Seq<TaskView>, arch: Seq<TaskView>, ids: Seq<usize>, today: Date) -> ArchiveRun
    decreases ids.len(),
{
    if ids.len() == 0 {
        ArchiveRun { tasks: s, archived: arch, lines: Seq::empty(), stopped: false, warning: Seq::empty() }
    } else {
        let r = archive_all(s, arch, ids.drop_last(), today);
        if r.stopped {
            r
        } else {
            let i = find_index(r.tasks, ids.last() as nat);
            if i < 0 {
                ArchiveRun { stopped: true, warning: no_task_warning(ids.last() as nat), ..r }
            } else if r.tasks[i].status == Status::Archived {
                ArchiveRun { stopped: true, warning: already_archived_text(), ..r }
            } else {
                let t2 = marked_archived(r.tasks[i], today);
                ArchiveRun {
                    tasks: r.tasks.update(i, t2),
                    archived: r.archived.push(archived_copy(t2)),
                    lines: r.lines.push(archived_prefix() + t2.title),
                    stopped: false,
                    warning: Seq::empty(),
                }
            }
        }
    }
}

proof fn lemma_archive_stops(s: Seq<TaskView>, arch: Seq<TaskView>, ids: Seq<usize>, k: int, today: Date)
    requires
        0 < k <= ids.len(),
        archive_all(s, arch, ids.take(k), today).stopped,
    ensures
        archive_all(s, arch, ids, today) == archive_all(s, arch, ids.take(k), today),
    decreases ids.len() - k,
{
    if k < ids.len() {
        assert(ids.take(k + 1).drop_last() =~= ids.take(k));
        lemma_archive_stops(s, arch, ids, k + 1, today);
    } else {
        assert(ids.take(k) =~= ids);
    }
}

/// Archives the tasks with the ids, one after the other (see `archive_all`): the
/// lines to print, and the warning it stopped with, if it stopped.
pub fn archive_tasks(
    tasks: &mut Vec<TaskItem>,
    archived: &mut Vec<TaskItem>,
    ids: &Vec<usize>,
    today: Date,
) -> (r: (Vec<String>, Option<String>))
    ensures
        views(final(tasks)@) == archive_all(views(old(tasks)@), views(old(archived)@), ids@, today).tasks,
        views(final(archived)@) == archive_all(views(old(tasks)@), views(old(archived)@), ids@, today).archived,
        texts(r.0@) == archive_all(views(old(tasks)@), views(old(archived)@), ids@, today).lines,
        r.1 is Some == archive_all(views(old(tasks)@), views(old(archived)@), ids@, today).stopped,
        r.1 matches Some(w) ==> w@ == archive_all(views(old(tasks)@), views(old(archived)@), ids@, today).warning,
        r.1 matches Some(w) ==> w@.len() > 0,
{
    let ghost s0 = views(tasks@);
    let ghost a0 = views(archived@);
    let mut lines: Vec<String> = Vec::new();
    let mut k: usize = 0;
    assert(ids@.take(0) =~= Seq::<usize>::empty());
    assert(texts(lines@) =~= Seq::<Seq<char>>::empty());
    while k < ids.len()
        invariant
            k <= ids.len(),
            s0 == views(old(tasks)@),
            a0 == views(old(archived)@),
            !archive_all(s0, a0, ids@.take(k as int), today).stopped,
            views(tasks@) == archive_all(s0, a0, ids@.take(k as int), today).tasks,
            views(archived@) == archive_all(s0, a0, ids@.take(k as int), today).archived,
            texts(lines@) == archive_all(s0, a0, ids@.take(k as int), today).lines,
        decreases ids.len() - k,
    {
        let id = ids[k];
        assert(ids@.take(k + 1).drop_last() =~= ids@.take(k as int));
        assert(ids@.take(k + 1).last() == id);
        let ghost r = archive_all(s0, a0, ids@.take(k as int), today);
        let found = find_task(tasks, id);
        let stop = match found {
            None => true,
            Some(i) => tasks[i].status == Status::Archived,
        };
        if stop {
            let warning = match found {
                None => no_task_message(id),
                Some(_) => {
                    proof {
                        reveal_strlit("Task already archived");
                    }
                    lit_string("Task already archived")
                },
            };
            proof {
                assert(archive_all(s0, a0, ids@.take(k + 1), today).stopped);
                assert(archive_all(s0, a0, ids@.take(k + 1), today).warning == warning@);
                lemma_archive_stops(s0, a0, ids@, k + 1, today);
                assert(archive_all(s0, a0, ids@.take(k + 1), today).tasks == r.tasks);
                assert(archive_all(s0, a0, ids@.take(k + 1), today).archived == r.archived);
                assert(archive_all(s0, a0, ids@.take(k + 1), today).lines == r.lines);
                assert(warning@.len() > 0) by {
                    assert(warning@[0] == '\u{26a0}' || warning@[0] == 'T');
                }
            }
            return (lines, Some(warning));
        }
        let i = match found {
            Some(i) => i,
            None => 0,
        };
        let mut t = tasks[i].clone();
        t.status = Status::Archived;
        if t.active_date.is_none() {
            t.active_date = Some(today);
        }
        let copy = archive_copy_item(&t, t.id);
        let mut line = lit_string("Archived task: ");
        proof {
            reveal_strlit("Archived task: ");
        }
        push_str(&mut line, t.title.as_str());
        assert(line@ =~= archived_prefix() + t@.title);
        let ghost tv = t@;
        tasks.set(i, t);
        archived.push(copy);
        lines.push(line);
        assert(tv == marked_archived(r.tasks[i as int], today));
        assert(views(tasks@) =~= r.tasks.update(i as int, tv));
        assert(views(archived@) =~= r.archived.push(archived_copy(tv)));
        assert(texts(lines@) =~= r.lines.push(archived_prefix() + tv.title));
        k += 1;
    }
    assert(ids@.take(ids.len() as int) =~= ids@);
    (lines, None)
}


/// What clearing leaves of a task in the list: nothing of an archived or done task,
/// an in-progress task back to do, a task to do as it is.
pub open spec fn cleared(t: TaskView) -> Seq<TaskView> {
    match t.status {
        Status::Archived => Seq::empty(),
        Status::Done => Seq::empty(),
        Status::InProgress => seq![TaskView { status: Status::Todo, ..t }],
        Status::Todo => seq![t],
    }
}

/// What clearing leaves in the list.
pub open spec fn kept_after_clear(s: Seq<TaskView>) -> Seq<TaskView>
    decreases s.len(),
{
    if s.len() == 0 {
        Seq::empty()
    } else {
        kept_after_clear(s.drop_last()) + cleared(s.last())
    }
}

/// How many tasks are in progress.
pub open spec fn count_in_progress(s: Seq<TaskView>) -> nat
    decreases s.len(),
{
    if s.len() == 0 {
        0
    } else {
        count_in_progress(s.drop_last()) + if s.last().status == Status::InProgress { 1nat } else { 0nat }
    }
}

/// What clearing adds to the archive: an archived copy of each archived or done
/// task, and of each task in progress a copy under a new id, counted from `next`.
pub open spec fn added_by_clear(s: Seq<TaskView>, next: nat) -> Seq<TaskView>
    decreases s.len(),
{
    if s.len() == 0 {
        Seq::empty()
    } else {
        let t = s.last();
        added_by_clear(s.drop_last(), next) + match t.status {
            Status::Archived => seq![archived_copy(t)],
            Status::Done => seq![archived_copy(t)],
            Status::InProgress => seq![
                TaskView { id: next + count_in_progress(s.drop_last()), ..archived_copy(t) },
            ],
            Status::Todo => Seq::empty(),
        }
    }
}

proof fn lemma_count_bound(s: Seq<TaskView>)
    ensures
        count_in_progress(s) <= s.len(),
    decreases s.len(),
{
    if s.len() > 0 {
        lemma_count_bound(s.drop_last());
    }
}

/// Clears the list: what stays in it, and what goes to the archive (new ids for the
/// copies of tasks in progress counted from `next`).
pub fn clear_tasks(tasks: &Vec<TaskItem>, next: usize) -> (r: (Vec<TaskItem>, Vec<TaskItem>))
    requires
        next + tasks.len() <= usize::MAX,
    ensures
        views(r.0@) == kept_after_clear(views(tasks@)),
        views(r.1@) == added_by_clear(views(tasks@), next as nat),
{
    let ghost vs = views(tasks@);
    let mut kept: Vec<TaskItem> = Vec::new();
    let mut added: Vec<TaskItem> = Vec::new();
    let mut next_id = next;
    let mut i: usize = 0;
    assert(vs.take(0) =~= Seq::<TaskView>::empty());
    while i < tasks.len()
        invariant
            i <= tasks.len(),
            vs == views(tasks@),
            next + tasks.len() <= usize::MAX,
            views(kept@) == kept_after_clear(vs.take(i as int)),
            views(added@) == added_by_clear(vs.take(i as int), next as nat),
            next_id == next + count_in_progress(vs.take(i as int)),
            count_in_progress(vs.take(i as int)) <= i,
        decreases tasks.len() - i,
    {
        let t = &tasks[i];
        assert(vs.take(i + 1).drop_last() =~= vs.take(i as int));
        assert(vs.take(i + 1).last() == t@);
        let ghost kb = views(kept@);
        let ghost ab = views(added@);
        match t.status {
            Status::Archived => {
                let c = archive_copy_item(t, t.id);
                added.push(c);
                assert(views(added@) =~= ab + seq![archived_copy(t@)]);
                assert(views(kept@) =~= kb + cleared(t@));
            },
            Status::Done => {
                let c = archive_copy_item(t, t.id);
                added.push(c);
                assert(views(added@) =~= ab + seq![archived_copy(t@)]);
                assert(views(kept@) =~= kb + cleared(t@));
            },
            Status::InProgress => {
                let c = archive_copy_item(t, next_id);
                next_id = next_id + 1;
                added.push(c);
                let mut k = t.clone();
                k.status = Status::Todo;
                kept.push(k);
                assert(views(added@) =~= ab + seq![TaskView { id: (next + count_in_progress(vs.take(i as int))) as nat, ..archived_copy(t@) }]);
                assert(views(kept@) =~= kb + cleared(t@));
            },
            Status::Todo => {
                kept.push(t.clone());
                assert(views(kept@) =~= kb + cleared(t@));
                assert(views(added@) =~= ab);
            },
        }
        i += 1;
    }
    assert(vs.take(tasks.len() as int) =~= vs);
    (kept, added)
}

/// The task has one of the statuses and a date from `from` on, and up to `to` if
/// there is one.
pub open spec fn in_range(t: TaskView, from: Date, to: Option<Date>, statuses: Seq<Status>) -> bool {
    statuses.contains(t.status) && match t.active_date {
        Some(d) => from.on_or_before(d) && match to {
            Some(b) => d.on_or_before(b),
            None => true,
        },
        None => false,
    }
}

/// The ids of the tasks with one of the statuses and a date on or after `from`.
pub open spec fn ids_on_or_after(s: Seq<TaskView>, from: Date, statuses: Seq<Status>) -> Seq<usize> {
    s.filter(|t: TaskView| in_range(t, from, None, statuses)).map_values(|t: TaskView| t.id as usize)
}

/// The ids of the tasks with one of the statuses and a date from `a` to `b`, both
/// included.
pub open spec fn ids_between(s: Seq<TaskView>, a: Date, b: Date, statuses: Seq<Status>) -> Seq<usize> {
    s.filter(|t: TaskView| in_range(t, a, Some(b), statuses)).map_values(|t: TaskView| t.id as usize)
}

fn status_in(statuses: &Vec<Status>, s: Status) -> (r: bool)
    ensures
        r == statuses@.contains(s),
{
    let mut k: usize = 0;
    while k < statuses.len()
        invariant
            k <= statuses.len(),
            forall|j: int| 0 <= j < k ==> statuses@[j] != s,
        decreases statuses.len() - k,
    {
        if statuses[k] == s {
            assert(statuses@[k as int] == s);
            return true;
        }
        k += 1;
    }
    false
}

/// The ids of the tasks with one of the statuses whose date lies from `from` on, and
/// up to `to` if one is given.
fn ids_in_range(tasks: &Vec<TaskItem>, from: Date, to: Option<Date>, statuses: &Vec<Status>) -> (r: Vec<usize>)
    ensures
        to is None ==> r@ == ids_on_or_after(views(tasks@), from, statuses@),
        to matches Some(b) ==> r@ == ids_between(views(tasks@), from, b, statuses@),
{
    let ghost vs = views(tasks@);
    let ghost fa = |t: TaskView| in_range(t, from, None, statuses@);
    let ghost fb = |t: TaskView| in_range(t, from, to, statuses@);
    let ghost idf = |t: TaskView| t.id as usize;
    let mut r: Vec<usize> = Vec::new();
    let mut i: usize = 0;
    proof {
        reveal(Seq::filter);
        assert(vs.take(0) =~= Seq::<TaskView>::empty());
    }
    while i < tasks.len()
        invariant
            i <= tasks.len(),
            vs == views(tasks@),
            fa == (|t: TaskView| in_range(t, from, None, statuses@)),
            fb == (|t: TaskView| in_range(t, from, to, statuses@)),
            idf == (|t: TaskView| t.id as usize),
            to is None ==> r@ == vs.take(i as int).filter(fa).map_values(idf),
            to is Some ==> r@ == vs.take(i as int).filter(fb).map_values(idf),
        decreases tasks.len() - i,
    {
        let t = &tasks[i];
        assert(vs.take(i + 1).drop_last() =~= vs.take(i as int));
        assert(vs.take(i + 1).last() == t@);
        reveal(Seq::filter);
        let ghost before = r@;
        let matches = status_in(statuses, t.status) && match t.active_date {
            Some(d) => from.is_on_or_before(&d) && match to {
                Some(b) => d.is_on_or_before(&b),
                None => true,
            },
            None => false,
        };
        proof {
            assert(fa(t@) == in_range(t@, from, None, statuses@));
            assert(fb(t@) == in_range(t@, from, to, statuses@));
            let old_a = vs.take(i as int).filter(fa);
            let old_b = vs.take(i as int).filter(fb);
            assert(vs.take(i + 1).filter(fa) == if fa(t@) { old_a.push(t@) } else { old_a });
            assert(vs.take(i + 1).filter(fb) == if fb(t@) { old_b.push(t@) } else { old_b });
            assert(old_a.push(t@).map_values(idf) =~= old_a.map_values(idf).push(idf(t@)));
            assert(old_b.push(t@).map_values(idf) =~= old_b.map_values(idf).push(idf(t@)));
        }
        if matches {
            r.push(t.id);
        }
        assert(to is None ==> r@ =~= vs.take(i + 1).filter(fa).map_values(idf));
        assert(to is Some ==> r@ =~= vs.take(i + 1).filter(fb).map_values(idf));
        i += 1;
    }
    assert(vs.take(tasks.len() as int) =~= vs);
    r
}

/// The ids of the tasks with one of the statuses dated on or after the date written
/// `YYYY-MM-DD` (`get_task_ids_after_date`); fails if the text is no date.
pub fn get_task_ids_after_date(tasks: &Vec<TaskItem>, date: &str, statuses: &Vec<Status>) -> (r: Result<Vec<usize>, crate::error::FiniError>)
    ensures
        r matches Err(e) ==> e is InvalidDate,
        r is Ok <==> crate::markdown::date_of_text(date@) is Some,
        r matches Ok(v) ==> v@ == ids_on_or_after(views(tasks@), crate::markdown::date_of_text(date@).unwrap(), statuses@),
{
    match crate::date::parse_date(date) {
        Ok(d) => Ok(ids_in_range(tasks, d, None, statuses)),
        Err(e) => Err(crate::error::FiniError::InvalidDate(e.input)),
    }
}

/// The ids of the tasks with one of the statuses dated from the first date to the
/// second, both included (`get_task_ids_between`); fails if either text is no date.
pub fn get_task_ids_between(tasks: &Vec<TaskItem>, date_a: &str, date_b: &str, statuses: &Vec<Status>) -> (r: Result<Vec<usize>, crate::error::FiniError>)
    ensures
        r matches Err(e) ==> e is InvalidDate,
        r is Ok <==> (crate::markdown::date_of_text(date_a@) is Some && crate::markdown::date_of_text(date_b@) is Some),
        r matches Ok(v) ==> v@ == ids_between(views(tasks@), crate::markdown::date_of_text(date_a@).unwrap(), crate::markdown::date_of_text(date_b@).unwrap(), statuses@),
{
    let a = match crate::date::parse_date(date_a) {
        Ok(d) => d,
        Err(e) => return Err(crate::error::FiniError::InvalidDate(e.input)),
    };
    let b = match crate::date::parse_date(date_b) {
        Ok(d) => d,
        Err(e) => return Err(crate::error::FiniError::InvalidDate(e.input)),
    };
    Ok(ids_in_range(tasks, a, Some(b), statuses))
}


/// The id of the task at a 1-based position of the list, if there is one
/// (`get_task_id_by_index_from_list`).
pub fn get_task_id_by_index_from_list(index: usize, visible: &Vec<TaskItem>) -> (r: Option<usize>)
    requires
        index >= 1,
    ensures
        index <= visible.len() ==> r == Some(visible@[index - 1].id),
        index > visible.len() ==> r is None,
{
    if index - 1 < visible.len() {
        Some(visible[index - 1].id)
    } else {
        None
    }
}

/// The task is done or in progress.
pub open spec fn is_checked(t: TaskView) -> bool {
    t.status == Status::Done || t.status == Status::InProgress
}

/// The ids of the tasks that are done or in progress, in their order.
pub open spec fn checked_ids(s: Seq<TaskView>) -> Seq<usize> {
    s.filter(|t: TaskView| is_checked(t)).map_values(|t: TaskView| t.id as usize)
}

/// The ids of the tasks that are done or in progress.
pub fn checked_task_ids(tasks: &Vec<TaskItem>) -> (r: Vec<usize>)
    ensures
        r@ == checked_ids(views(tasks@)),
{
    let ghost vs = views(tasks@);
    let ghost f = |t: TaskView| is_checked(t);
    let ghost idf = |t: TaskView| t.id as usize;
    let mut r: Vec<usize> = Vec::new();
    let mut i: usize = 0;
    proof {
        reveal(Seq::filter);
        assert(vs.take(0) =~= Seq::<TaskView>::empty());
    }
    while i < tasks.len()
        invariant
            i <= tasks.len(),
            vs == views(tasks@),
            f == (|t: TaskView| is_checked(t)),
            idf == (|t: TaskView| t.id as usize),
            r@ == vs.take(i as int).filter(f).map_values(idf),
        decreases tasks.len() - i,
    {
        let t = &tasks[i];
        assert(vs.take(i + 1).drop_last() =~= vs.take(i as int));
        assert(vs.take(i + 1).last() == t@);
        proof {
            reveal(Seq::filter);
            let old_f = vs.take(i as int).filter(f);
            assert(vs.take(i + 1).filter(f) == if f(t@) { old_f.push(t@) } else { old_f });
            assert(old_f.push(t@).map_values(idf) =~= old_f.map_values(idf).push(idf(t@)));
        }
        if t.status == Status::Done || t.status == Status::InProgress {
            r.push(t.id);
        }
        assert(r@ =~= vs.take(i + 1).filter(f).map_values(idf));
        i += 1;
    }
    assert(vs.take(tasks.len() as int) =~= vs);
    r
}


// ---------------------------------------------------------------------------
// Operations on a store

/// `b` is `a` but for the active board's task list and archive: the same boards,
/// every other board as it was, and a store that did not fail still does not.
pub open spec fn kept_but_active<S: TaskStorage>(a: S, b: S) -> bool {
    &&& same_boards(a, b)
    &&& a.dependable() ==> b.dependable()
    &&& forall|n: Seq<char>| n != a.board() ==> #[trigger] b.tasks_of(n) == a.tasks_of(n)
    &&& forall|n: Seq<char>| n != a.board() ==> #[trigger] b.archive_of(n) == a.archive_of(n)
}

/// A task list with one more task still has only valid dates.
pub(crate) proof fn lemma_push_dates(s: Seq<TaskView>, t: TaskView)
    requires
        dates_valid(s),
        date_ok(t),
    ensures
        dates_valid(s.push(t)),
{
    assert forall|i: int| 0 <= i < s.push(t).len() implies date_ok(#[trigger] s.push(t)[i]) by {
        if i < s.len() {
            assert(s.push(t)[i] == s[i]);
        }
    }
}

/// A text that is a string literal followed by another text.
pub(crate) fn joined_message(lit: &str, rest: &str) -> (r: String)
    ensures
        r@ == lit@ + rest@,
{
    let mut m = lit_string(lit);
    push_str(&mut m, rest);
    m
}

/// The task with the id, from the store (`get_task_for_id`).
pub open spec fn task_for_id<S: TaskStorage>(st: S, id: nat, t: TaskView) -> bool {
    match tasks_now(st) {
        Ok(s) => 0 <= find_index(s, id) && t == s[find_index(s, id)],
        Err(_) => false,
    }
}

/// No task of the store's list has the id.
pub open spec fn no_task_with_id<S: TaskStorage>(st: S, id: nat) -> bool {
    match tasks_now(st) {
        Ok(s) => find_index(s, id) < 0,
        Err(_) => false,
    }
}

/// The store does not fail, and the active board's list can be read.
pub open spec fn ready<S: TaskStorage>(st: S) -> bool {
    st.dependable() && tasks_now(st) is Ok
}

/// The store is ready, and its list is one of which `f` holds.
pub open spec fn ready_with<S: TaskStorage>(st: S, f: spec_fn(Seq<TaskView>) -> bool) -> bool {
    &&& st.dependable()
    &&& tasks_now(st) matches Ok(s) && f(s)
}

/// Reads the task with the id from the active board; fails if no task has it.
pub fn get_task_for_id<S: TaskStorage>(storage: &S, id: usize) -> (r: Result<TaskItem, FiniError>)
    ensures
        r matches Ok(t) ==> task_for_id(*storage, id as nat, t@),
        r matches Err(e) ==> read_error(e) || (e is TaskNotFound && no_task_with_id(*storage, id as nat)),
        tasks_now(*storage) is Err ==> r is Err,
        ready(*storage) && !no_task_with_id(*storage, id as nat) ==> r is Ok,
{
    let tasks = storage.read_tasks()?;
    match find_task(&tasks, id) {
        Some(i) => Ok(tasks[i].clone()),
        None => Err(FiniError::TaskNotFound),
    }
}

/// The store's list holds the tasks: `v` is its visible tasks, in their order.
pub open spec fn visible_of<S: TaskStorage>(st: S, v: Seq<TaskView>) -> bool {
    match tasks_now(st) {
        Ok(s) => v == visible(s),
        Err(_) => false,
    }
}

/// The tasks of the active board that the list shows, in their order.
pub fn get_visible_items<S: TaskStorage>(storage: &S) -> (r: Result<Vec<TaskItem>, FiniError>)
    ensures
        r matches Ok(v) ==> visible_of(*storage, views(v@)),
        r matches Err(e) ==> read_error(e),
        tasks_now(*storage) is Err ==> r is Err,
{
    let items = storage.read_tasks()?;
    Ok(visible_items(&items))
}

/// `v` is the ids of the store's tasks that are done or in progress.
pub open spec fn checked_of<S: TaskStorage>(st: S, v: Seq<usize>) -> bool {
    match tasks_now(st) {
        Ok(s) => v == checked_ids(s),
        Err(_) => false,
    }
}

/// The ids of the active board's tasks that are done or in progress, in their order.
pub fn get_checked_task_ids<S: TaskStorage>(storage: &S) -> (r: Result<Vec<usize>, FiniError>)
    ensures
        storage.dependable() && tasks_now(*storage) is Ok ==> r is Ok,
        r matches Ok(v) ==> checked_of(*storage, v@),
        r matches Err(e) ==> read_error(e),
        tasks_now(*storage) is Err ==> r is Err,
{
    let tasks = storage.read_tasks()?;
    Ok(checked_task_ids(&tasks))
}

pub open spec fn added_prefix() -> Seq<char> {
    seq!['A', 'd', 'd', 'e', 'd', ' ', 't', 'a', 's', 'k', ':', ' ']
}

/// What adding a task did: the list read from `a` was `s`, the new task got the
/// next id and was written with the list, and its title was printed.
pub open spec fn add_done<S: TaskStorage>(
    a: S,
    b: S,
    p0: Seq<char>,
    p1: Seq<char>,
    id: nat,
    title: Seq<char>,
    link: Option<Seq<char>>,
) -> bool {
    match tasks_now(a) {
        Ok(s) => {
            &&& id == next_id_of(s)
            &&& tasks_now(b) == written_tasks(s.push(new_task(id, title, link)))
            &&& archive_now(b) == archive_now(a)
            &&& p1 == p0 + added_prefix() + title + seq!['\n']
        },
        Err(_) => false,
    }
}

/// Adds a task with the title and link to the active board, under the next id;
/// prints `Added task: ` and the title. Fails if the list cannot be read or written
/// (or if no id is left above the largest one).
pub fn add<S: TaskStorage, W: Printer>(
    storage: &mut S,
    printer: &mut W,
    title: String,
    link: Option<String>,
) -> (r: Result<usize, FiniError>)
    ensures
        ready_with(*old(storage), |s: Seq<TaskView>| max_id(s) < usize::MAX) ==> r is Ok,
        r matches Err(e) ==> read_error(e),
        kept_but_active(*old(storage), *final(storage)),
        r matches Ok(id) ==> add_done(*old(storage), *final(storage), old(printer).printed(),
            final(printer).printed(), id as nat, title@, crate::task_item::link_view(link)),
        tasks_now(*old(storage)) is Err ==> r is Err && *final(storage) == *old(storage)
            && final(printer).printed() == old(printer).printed(),
{
    let mut tasks = storage.read_tasks()?;
    if max_task_id(&tasks) == usize::MAX {
        return Err(FiniError::Store(lit_string("no task id is left")));
    }
    let message = joined_message("Added task: ", title.as_str());
    proof {
        reveal_strlit("Added task: ");
    }
    let ghost s = views(tasks@);
    let ghost lv = crate::task_item::link_view(link);
    let ghost tv = title@;
    let id = add_task(&mut tasks, title, link);
    printer.print(message.as_str());
    assert(printer.printed() =~= old(printer).printed() + added_prefix() + tv + seq!['\n']);
    proof {
        lemma_push_dates(s, new_task(id as nat, tv, lv));
    }
    storage.write_tasks(tasks)?;
    Ok(id)
}

/// What deleting did: the list read from `a` was written back without the tasks
/// whose ids are among `ids`.
pub open spec fn delete_done<S: TaskStorage>(a: S, b: S, ids: Seq<usize>) -> bool {
    match tasks_now(a) {
        Ok(s) => tasks_now(b) == written_tasks(without_ids(s, ids)) && archive_now(b) == archive_now(a),
        Err(_) => false,
    }
}

/// Deletes the active board's tasks whose ids are among `ids`.
pub fn delete<S: TaskStorage>(storage: &mut S, ids: &Vec<usize>) -> (r: Result<(), FiniError>)
    ensures
        ready(*old(storage)) ==> r is Ok,
        r matches Err(e) ==> read_error(e),
        kept_but_active(*old(storage), *final(storage)),
        r is Ok ==> delete_done(*old(storage), *final(storage), ids@),
        tasks_now(*old(storage)) is Err ==> r is Err && *final(storage) == *old(storage),
{
    let tasks = storage.read_tasks()?;
    let ghost s = views(tasks@);
    let kept = delete_ids(tasks, ids);
    proof {
        lemma_filter_dates(s, |t: TaskView| !id_in(ids@, t.id));
    }
    storage.write_tasks(kept)?;
    Ok(())
}

/// Keeping some of the tasks keeps the dates valid.
pub(crate) proof fn lemma_filter_dates(s: Seq<TaskView>, f: spec_fn(TaskView) -> bool)
    requires
        dates_valid(s),
    ensures
        dates_valid(s.filter(f)),
        all_dated(s) ==> all_dated(s.filter(f)),
{
    lemma_filter_members(s, f);
    assert forall|i: int| 0 <= i < s.filter(f).len() implies date_ok(#[trigger] s.filter(f)[i]) by {
        let j = choose|j: int| 0 <= j < s.len() && s[j] == s.filter(f)[i];
        assert(date_ok(s[j]));
    }
    if all_dated(s) {
        assert forall|i: int| 0 <= i < s.filter(f).len() implies dated_ok(#[trigger] s.filter(f)[i]) by {
            let j = choose|j: int| 0 <= j < s.len() && s[j] == s.filter(f)[i];
            assert(dated_ok(s[j]));
        }
    }
}

/// What a filter keeps was there.
pub proof fn lemma_filter_members<A>(s: Seq<A>, f: spec_fn(A) -> bool)
    ensures
        forall|i: int| 0 <= i < s.filter(f).len() ==> exists|j: int| 0 <= j < s.len() && s[j] == #[trigger] s.filter(f)[i],
    decreases s.len(),
{
    reveal(Seq::filter);
    if s.len() > 0 {
        let init = s.drop_last();
        lemma_filter_members(init, f);
        let sub = init.filter(f);
        assert forall|i: int| 0 <= i < s.filter(f).len() implies exists|j: int| 0 <= j < s.len() && s[j] == #[trigger] s.filter(f)[i] by {
            if i < sub.len() {
                assert(s.filter(f)[i] == sub[i]);
                let j = choose|j: int| 0 <= j < init.len() && init[j] == sub[i];
                assert(s[j] == init[j]);
            } else {
                assert(s.filter(f)[i] == s.last());
                assert(s[s.len() - 1] == s.last());
            }
        }
    }
}

/// A task list with a task changed in a way that keeps its date valid still has
/// only valid dates.
pub(crate) proof fn lemma_update_dates(s: Seq<TaskView>, i: int, t: TaskView)
    requires
        dates_valid(s),
        0 <= i < s.len(),
        date_ok(t),
    ensures
        dates_valid(s.update(i, t)),
{
    assert forall|k: int| 0 <= k < s.update(i, t).len() implies date_ok(#[trigger] s.update(i, t)[k]) by {
        if k != i {
            assert(s.update(i, t)[k] == s[k]);
        }
    }
}

/// Toggling keeps the dates valid (today's date being a valid one).
proof fn lemma_toggle_dates(kind: Toggle, s: Seq<TaskView>, ids: Seq<usize>, today: Date)
    requires
        dates_valid(s),
        today.valid(),
    ensures
        dates_valid(toggle_all(kind, s, ids, today).tasks),
    decreases ids.len(),
{
    if ids.len() > 0 {
        lemma_toggle_dates(kind, s, ids.drop_last(), today);
        let r = toggle_all(kind, s, ids.drop_last(), today);
        if r.missing is None {
            let i = find_index(r.tasks, ids.last() as nat);
            lemma_find_index(r.tasks, ids.last() as nat);
            if i >= 0 {
                assert(date_ok(r.tasks[i]));
                lemma_update_dates(r.tasks, i, toggled(kind, r.tasks[i], today));
            }
        }
    }
}

/// Archiving keeps the dates of the list valid and dates every archived task.
proof fn lemma_archive_dates(s: Seq<TaskView>, arch: Seq<TaskView>, ids: Seq<usize>, today: Date)
    requires
        dates_valid(s),
        all_dated(arch),
        today.valid(),
    ensures
        dates_valid(archive_all(s, arch, ids, today).tasks),
        all_dated(archive_all(s, arch, ids, today).archived),
    decreases ids.len(),
{
    if ids.len() > 0 {
        lemma_archive_dates(s, arch, ids.drop_last(), today);
        let r = archive_all(s, arch, ids.drop_last(), today);
        if !r.stopped {
            let i = find_index(r.tasks, ids.last() as nat);
            lemma_find_index(r.tasks, ids.last() as nat);
            if i >= 0 && r.tasks[i].status != Status::Archived {
                assert(date_ok(r.tasks[i]));
                let t2 = marked_archived(r.tasks[i], today);
                lemma_update_dates(r.tasks, i, t2);
                let a2 = r.archived.push(archived_copy(t2));
                assert forall|k: int| 0 <= k < a2.len() implies dated_ok(#[trigger] a2[k]) by {
                    if k < r.archived.len() {
                        assert(a2[k] == r.archived[k]);
                    }
                }
            }
        }
    }
}

/// Clearing keeps the dates valid, in the list and in what it archives.
proof fn lemma_clear_dates(s: Seq<TaskView>, next: nat)
    requires
        dates_valid(s),
    ensures
        dates_valid(kept_after_clear(s)),
        dates_valid(added_by_clear(s, next)),
    decreases s.len(),
{
    if s.len() > 0 {
        assert(dates_valid(s.drop_last()));
        lemma_clear_dates(s.drop_last(), next);
        assert(date_ok(s.last()));
        let k0 = kept_after_clear(s.drop_last());
        let a0 = added_by_clear(s.drop_last(), next);
        let kc = cleared(s.last());
        let ac = added_by_clear(s, next).subrange(a0.len() as int, added_by_clear(s, next).len() as int);
        assert forall|i: int| 0 <= i < kept_after_clear(s).len() implies date_ok(#[trigger] kept_after_clear(s)[i]) by {
            if i < k0.len() {
                assert(kept_after_clear(s)[i] == k0[i]);
            } else {
                assert(kept_after_clear(s)[i] == kc[i - k0.len()]);
            }
        }
        assert forall|i: int| 0 <= i < added_by_clear(s, next).len() implies date_ok(#[trigger] added_by_clear(s, next)[i]) by {
            if i < a0.len() {
                assert(added_by_clear(s, next)[i] == a0[i]);
            }
        }
    }
}

/// The lines of a list of tasks with their positions: `lines[k]` shows the task
/// `vs[k]` at position `k + 1`.
pub open spec fn list_lines(vs: Seq<TaskView>, format: LinkFormat, lines: Seq<Seq<char>>) -> bool {
    &&& lines.len() == vs.len()
    &&& forall|k: int| 0 <= k < vs.len() ==> shows_with_index(vs[k], (k + 1) as nat, format, #[trigger] lines[k])
}

pub open spec fn no_tasks_text() -> Seq<char> {
    seq!['N', 'o', ' ', 't', 'a', 's', 'k', 's']
}

/// What listing printed: the store's visible tasks as the list shows them, each on
/// a line with its position, or `No tasks`.
pub open spec fn list_shown<S: TaskStorage>(st: S, format: LinkFormat, p0: Seq<char>, p1: Seq<char>) -> bool {
    match tasks_now(st) {
        Ok(s) => if visible_sorted(s).len() == 0 {
            p1 == p0 + no_tasks_text() + seq!['\n']
        } else {
            exists|lines: Seq<Seq<char>>| #[trigger] list_lines(visible_sorted(s), format, lines) && p1 == p0 + printed_lines(lines)
        },
        Err(_) => false,
    }
}

/// Prints the active board's list: each task the list shows, in its order, with
/// its position, status and link in the format; `No tasks` if there is none.
pub fn list<S: TaskStorage, W: Printer>(storage: &S, printer: &mut W, format: LinkFormat) -> (r: Result<(), FiniError>)
    ensures
        ready(*storage) ==> r is Ok,
        r matches Err(e) ==> read_error(e),
        r is Ok ==> list_shown(*storage, format, old(printer).printed(), final(printer).printed()),
        r is Err ==> final(printer).printed() == old(printer).printed(),
        tasks_now(*storage) is Err ==> r is Err,
{
    let tasks = storage.read_tasks()?;
    let visible = sort_visible_items(&tasks);
    if visible.len() == 0 {
        printer.print("No tasks");
        proof {
            reveal_strlit("No tasks");
        }
        assert(printer.printed() =~= old(printer).printed() + no_tasks_text() + seq!['\n']);
        return Ok(());
    }
    let mut lines: Vec<String> = Vec::new();
    let mut k: usize = 0;
    while k < visible.len()
        invariant
            k <= visible.len(),
            lines.len() == k,
            forall|j: int| 0 <= j < k ==> shows_with_index(visible@[j]@, (j + 1) as nat, format, #[trigger] lines@[j]@),
        decreases visible.len() - k,
    {
        let line = crate::task_item::with_index_string(&visible[k], k + 1, format);
        lines.push(line);
        k += 1;
    }
    print_all(printer, &lines);
    proof {
        assert(list_lines(views(visible@), format, texts(lines@)));
    }
    Ok(())
}

/// `out` is the listing of the tasks by date (`archived_tasks_as_markdown`), each
/// task's text in the link format.
pub open spec fn listing_of(a: Seq<TaskView>, format: LinkFormat, out: Seq<char>) -> bool {
    exists|texts: Seq<Seq<char>>| #[trigger] archive_text_is(stable_sort(SortKey::ByDate, a), format, texts, out)
}

/// What listing the archive printed: the archive as a listing by date, each task
/// with its link after its title, and a line break.
pub open spec fn archived_shown<S: TaskStorage>(st: S, p0: Seq<char>, p1: Seq<char>) -> bool {
    match archive_now(st) {
        Ok(a) => printed_listing(a, LinkFormat::Adjacent, p0, p1),
        Err(_) => false,
    }
}

/// What printing the listing of the tasks by date, in the link format, printed.
pub open spec fn printed_listing(a: Seq<TaskView>, format: LinkFormat, p0: Seq<char>, p1: Seq<char>) -> bool {
    exists|out: Seq<char>| #[trigger] listing_of(a, format, out) && p1 == p0 + out + seq!['\n']
}

/// Copies the active board's tasks with the ids as Markdown links, in the list's
/// order, and says what was copied (see `copy`).
pub fn copy_with_markdown_links<S: TaskStorage, C: Copier, W: Printer>(
    storage: &S,
    copier: &mut C,
    printer: &mut W,
    ids: &Vec<usize>,
) -> (r: Result<(), FiniError>)
    ensures
        r is Ok ==> copy_done(*storage, *final(copier), ids@, LinkFormat::Markdown, old(printer).printed(), final(printer).printed()),
        r matches Err(e) ==> read_error(e) || e is Clipboard,
        r is Err ==> final(printer).printed() == old(printer).printed(),
        tasks_now(*storage) is Err ==> r is Err,
        ready(*storage) && old(copier).dependable() ==> r is Ok,
{
    copy(storage, copier, printer, ids, LinkFormat::Markdown)
}

pub open spec fn copied_archive_text() -> Seq<char> {
    seq!['C', 'o', 'p', 'i', 'e', 'd', ' ', 'a', 'r', 'c', 'h', 'i', 'v', 'e', 'd', ' ', 't', 'a', 's', 'k', 's', ' ',
        'a', 's', ' ', 'M', 'a', 'r', 'k', 'd', 'o', 'w', 'n']
}

/// Copies the active board's archive as Markdown (the text of its archive file:
/// by date, each task as a Markdown link), then says so.
pub fn copy_archived<S: TaskStorage, C: Copier, W: Printer>(storage: &S, copier: &mut C, printer: &mut W) -> (r: Result<(), FiniError>)
    ensures
        r is Ok ==> (archive_now(*storage) matches Ok(a) && final(copier).holds(PayloadView::Text(archive_file_text(a))))
            && final(printer).printed() == old(printer).printed() + copied_archive_text() + seq!['\n'],
        r matches Err(e) ==> read_error(e) || e is Clipboard,
        r is Err ==> final(printer).printed() == old(printer).printed(),
        archive_now(*storage) is Err ==> r is Err,
        storage.dependable() && archive_now(*storage) is Ok && old(copier).dependable() ==> r is Ok,
        final(printer).warned() == old(printer).warned(),
{
    let tasks = storage.read_archived()?;
    let ghost a = views(tasks@);
    let text = archived_tasks_as_markdown(tasks, LinkFormat::Markdown);
    proof {
        let texts = choose|texts: Seq<Seq<char>>| #[trigger] archive_text_is(stable_sort(SortKey::ByDate, a), LinkFormat::Markdown, texts, text@);
        lemma_markdown_archive_text(stable_sort(SortKey::ByDate, a), texts, text@);
    }
    let ghost tv = text@;
    let payload = CopyPayload::Text(TextPayload(text));
    assert(payload@ == PayloadView::Text(archive_file_text(a)));
    copier.copy(&payload)?;
    printer.print("Copied archived tasks as Markdown");
    proof {
        reveal_strlit("Copied archived tasks as Markdown");
    }
    assert(printer.printed() =~= old(printer).printed() + copied_archive_text() + seq!['\n']);
    Ok(())
}

/// Prints the active board's archive, by date, each task with its link after its
/// title.
pub fn archived<S: TaskStorage, W: Printer>(storage: &S, printer: &mut W) -> (r: Result<(), FiniError>)
    ensures
        storage.dependable() && archive_now(*storage) is Ok ==> r is Ok,
        r matches Err(e) ==> read_error(e),
        r is Ok ==> archived_shown(*storage, old(printer).printed(), final(printer).printed()),
        r is Err ==> final(printer).printed() == old(printer).printed(),
        archive_now(*storage) is Err ==> r is Err,
{
    let tasks = storage.read_archived()?;
    let ghost a = views(tasks@);
    let text = archived_tasks_as_markdown(tasks, LinkFormat::Adjacent);
    printer.print(text.as_str());
    proof {
        let texts = choose|texts: Seq<Seq<char>>| #[trigger] archive_text_is(stable_sort(SortKey::ByDate, a), LinkFormat::Adjacent, texts, text@);
        assert(archive_text_is(stable_sort(SortKey::ByDate, a), LinkFormat::Adjacent, texts, text@));
        assert(listing_of(a, LinkFormat::Adjacent, text@));
        assert(printer.printed() == old(printer).printed() + text@ + seq!['\n']);
        assert(listing_of(a, LinkFormat::Adjacent, text@) && printer.printed() == old(printer).printed() + text@ + seq!['\n']);
        assert(printed_listing(a, LinkFormat::Adjacent, old(printer).printed(), printer.printed()));
    }
    Ok(())
}

pub open spec fn starred_text() -> Seq<char> {
    seq!['S', 't', 'a', 'r', 'r', 'e', 'd', ' ', 't', 'h', 'e', ' ', 's', 'e', 'l', 'e', 'c', 't', 'e', 'd', ' ', 't', 'a', 's', 'k', 's']
}

pub open spec fn none_selected_text() -> Seq<char> {
    seq!['N', 'o', ' ', 't', 'a', 's', 'k', 's', ' ', 's', 'e', 'l', 'e', 'c', 't', 'e', 'd']
}

/// What starring prints after the toggles: nothing if it stopped at a missing id,
/// else whether tasks were starred.
pub open spec fn star_report(run: ToggleRun, ids: Seq<usize>) -> Seq<char> {
    if run.missing is Some {
        Seq::empty()
    } else if ids.len() > 0 {
        starred_text() + seq!['\n']
    } else {
        none_selected_text() + seq!['\n']
    }
}

/// What toggling the ids did: the lines for the toggled tasks were printed; the
/// list was written back if every id was found and there was one at least, and
/// stayed as it was otherwise.
pub open spec fn toggle_done<S: TaskStorage>(
    kind: Toggle,
    a: S,
    b: S,
    ids: Seq<usize>,
    today: Date,
    p0: Seq<char>,
    p1: Seq<char>,
) -> bool {
    match tasks_now(a) {
        Ok(s) => {
            let run = toggle_all(kind, s, ids, today);
            &&& p1 == p0 + printed_lines(run.lines) + if kind == Toggle::Star { star_report(run, ids) } else { Seq::empty() }
            &&& if run.missing is None && ids.len() > 0 {
                tasks_now(b) == written_tasks(run.tasks)
            } else {
                tasks_now(b) == tasks_now(a)
            }
            &&& archive_now(b) == archive_now(a)
        },
        Err(_) => false,
    }
}

/// Toggles the active board's tasks with the ids, one after the other, as of the
/// date `today` (see `toggle_all`); prints a line for each task begun, checked or
/// moved back; writes the list back unless an id is missing or there is none.
pub fn toggle_in_store<S: TaskStorage, W: Printer>(
    kind: Toggle,
    storage: &mut S,
    printer: &mut W,
    ids: &Vec<usize>,
    today: Date,
) -> (r: Result<(), FiniError>)
    requires
        today.valid(),
    ensures
        ready(*old(storage)) ==> r is Ok,
        r matches Err(e) ==> read_error(e),
        kept_but_active(*old(storage), *final(storage)),
        r is Ok ==> toggle_done(kind, *old(storage), *final(storage), ids@, today, old(printer).printed(), final(printer).printed()),
        tasks_now(*old(storage)) is Err ==> r is Err && *final(storage) == *old(storage)
            && final(printer).printed() == old(printer).printed(),
        r is Ok ==> final(printer).warned() == old(printer).warned() + match tasks_now(*old(storage)) {
            Ok(s) => missing_warning(toggle_all(kind, s, ids@, today).missing),
            Err(_) => Seq::<char>::empty(),
        },
        r is Err ==> final(printer).warned() == old(printer).warned(),
{
    let mut tasks = storage.read_tasks()?;
    let ghost s = views(tasks@);
    let (lines, missing) = toggle_tasks(kind, &mut tasks, ids, today);
    print_all(printer, &lines);
    let ghost p = printer.printed();
    if let Some(id) = missing {
        assert(printer.printed() =~= old(printer).printed() + printed_lines(texts(lines@)) + Seq::<char>::empty());
        let m = no_task_message(id);
        printer.warn(m.as_str());
        return Ok(());
    }
    if ids.len() == 0 {
        if kind == Toggle::Star {
            printer.print("No tasks selected");
            proof {
                reveal_strlit("No tasks selected");
            }
        }
        assert(printer.printed() =~= old(printer).printed() + printed_lines(texts(lines@))
            + if kind == Toggle::Star { star_report(toggle_all(kind, s, ids@, today), ids@) } else { Seq::empty() });
        return Ok(());
    }
    proof {
        lemma_toggle_dates(kind, s, ids@, today);
    }
    storage.write_tasks(tasks)?;
    if kind == Toggle::Star {
        printer.print("Starred the selected tasks");
        proof {
            reveal_strlit("Starred the selected tasks");
        }
    }
    assert(printer.printed() =~= old(printer).printed() + printed_lines(texts(lines@))
        + if kind == Toggle::Star { star_report(toggle_all(kind, s, ids@, today), ids@) } else { Seq::empty() });
    Ok(())
}

/// Begins the active board's tasks with the ids, or moves those in progress back to
/// do (`work`), as of today's date, whatever the clock gives.
pub fn work<S: TaskStorage, W: Printer>(storage: &mut S, printer: &mut W, ids: &Vec<usize>) -> (r: Result<(), FiniError>)
    ensures
        ready(*old(storage)) ==> r is Ok,
        kept_but_active(*old(storage), *final(storage)),
        r matches Err(e) ==> read_error(e),
        r is Ok ==> exists|today: Date| today.valid() && #[trigger] toggle_done(Toggle::Begin, *old(storage),
            *final(storage), ids@, today, old(printer).printed(), final(printer).printed())
            && final(printer).warned() == old(printer).warned() + match tasks_now(*old(storage)) {
                Ok(s) => missing_warning(toggle_all(Toggle::Begin, s, ids@, today).missing),
                Err(_) => Seq::<char>::empty(),
            },
        r is Err ==> final(printer).warned() == old(printer).warned(),
        tasks_now(*old(storage)) is Err ==> r is Err && *final(storage) == *old(storage)
            && final(printer).printed() == old(printer).printed(),
{
    let today = crate::date::today();
    toggle_in_store(Toggle::Begin, storage, printer, ids, today)
}

/// Checks the active board's tasks with the ids, or moves those done back to do
/// (`done`), as of today's date, whatever the clock gives.
pub fn done<S: TaskStorage, W: Printer>(storage: &mut S, printer: &mut W, ids: &Vec<usize>) -> (r: Result<(), FiniError>)
    ensures
        ready(*old(storage)) ==> r is Ok,
        kept_but_active(*old(storage), *final(storage)),
        r matches Err(e) ==> read_error(e),
        r is Ok ==> exists|today: Date| today.valid() && #[trigger] toggle_done(Toggle::Check, *old(storage),
            *final(storage), ids@, today, old(printer).printed(), final(printer).printed())
            && final(printer).warned() == old(printer).warned() + match tasks_now(*old(storage)) {
                Ok(s) => missing_warning(toggle_all(Toggle::Check, s, ids@, today).missing),
                Err(_) => Seq::<char>::empty(),
            },
        r is Err ==> final(printer).warned() == old(printer).warned(),
        tasks_now(*old(storage)) is Err ==> r is Err && *final(storage) == *old(storage)
            && final(printer).printed() == old(printer).printed(),
{
    let today = crate::date::today();
    toggle_in_store(Toggle::Check, storage, printer, ids, today)
}

/// Stars the active board's tasks with the ids, or unstars the starred ones; prints
/// whether any were starred.
pub fn star<S: TaskStorage, W: Printer>(storage: &mut S, printer: &mut W, ids: &Vec<usize>) -> (r: Result<(), FiniError>)
    ensures
        ready(*old(storage)) ==> r is Ok,
        kept_but_active(*old(storage), *final(storage)),
        r matches Err(e) ==> read_error(e),
        r is Ok ==> toggle_done(Toggle::Star, *old(storage), *final(storage), ids@, Date::spec_epoch(),
            old(printer).printed(), final(printer).printed()),
        r is Ok ==> final(printer).warned() == old(printer).warned() + match tasks_now(*old(storage)) {
            Ok(s) => missing_warning(toggle_all(Toggle::Star, s, ids@, Date::spec_epoch()).missing),
            Err(_) => Seq::<char>::empty(),
        },
        r is Err ==> final(printer).warned() == old(printer).warned(),
        tasks_now(*old(storage)) is Err ==> r is Err && *final(storage) == *old(storage)
            && final(printer).printed() == old(printer).printed(),
{
    toggle_in_store(Toggle::Star, storage, printer, ids, Date::epoch())
}

/// What archiving the ids did: the lines for the archived tasks were printed; unless
/// it stopped (at a missing id or a task archived already) or there was no id, the
/// list was written back without its archived tasks and the archive with the
/// copies added; otherwise both stayed as they were.
pub open spec fn archive_done<S: TaskStorage>(
    a: S,
    b: S,
    ids: Seq<usize>,
    today: Date,
    p0: Seq<char>,
    p1: Seq<char>,
) -> bool {
    match (tasks_now(a), archive_now(a)) {
        (Ok(s), Ok(arch)) => {
            let run = archive_all(s, arch, ids, today);
            &&& p1 == p0 + printed_lines(run.lines)
            &&& if !run.stopped && ids.len() > 0 {
                &&& tasks_now(b) == written_tasks(visible(run.tasks))
                &&& archive_now(b) == written_archive(run.archived)
            } else {
                &&& tasks_now(b) == tasks_now(a)
                &&& archive_now(b) == archive_now(a)
            }
        },
        _ => false,
    }
}

/// Archives the active board's tasks with the ids as of the date `today` (see
/// `archive_all`), prints a line for each, and writes back the list without its
/// archived tasks and the archive with their copies.
pub fn archive_in_store<S: TaskStorage, W: Printer>(
    storage: &mut S,
    printer: &mut W,
    ids: &Vec<usize>,
    today: Date,
) -> (r: Result<(), FiniError>)
    requires
        today.valid(),
    ensures
        ready(*old(storage)) && archive_now(*old(storage)) is Ok ==> r is Ok,
        r matches Err(e) ==> read_error(e),
        kept_but_active(*old(storage), *final(storage)),
        r is Ok ==> archive_done(*old(storage), *final(storage), ids@, today, old(printer).printed(), final(printer).printed()),
        (tasks_now(*old(storage)) is Err || archive_now(*old(storage)) is Err) ==> r is Err
            && *final(storage) == *old(storage) && final(printer).printed() == old(printer).printed(),
        r is Ok ==> final(printer).warned() == old(printer).warned() + match (tasks_now(*old(storage)), archive_now(*old(storage))) {
            (Ok(s), Ok(a)) => warning_line(archive_all(s, a, ids@, today).warning),
            _ => Seq::<char>::empty(),
        },
        r is Err ==> final(printer).warned() == old(printer).warned(),
{
    let mut tasks = storage.read_tasks()?;
    let mut archived = storage.read_archived()?;
    let ghost s = views(tasks@);
    let ghost a = views(archived@);
    let (lines, stopped) = archive_tasks(&mut tasks, &mut archived, ids, today);
    print_all(printer, &lines);
    if let Some(w) = stopped {
        printer.warn(w.as_str());
        return Ok(());
    }
    if ids.len() == 0 {
        return Ok(());
    }
    proof {
        lemma_archive_dates(s, a, ids@, today);
        lemma_filter_dates(views(tasks@), |t: TaskView| is_visible(t));
    }
    let kept = visible_items(&tasks);
    storage.write_tasks(kept)?;
    storage.write_archived(archived)?;
    Ok(())
}

/// Archives the active board's tasks with the ids (`archive`), dating undated ones
/// today, whatever the clock gives.
pub fn archive<S: TaskStorage, W: Printer>(storage: &mut S, printer: &mut W, ids: &Vec<usize>) -> (r: Result<(), FiniError>)
    ensures
        ready(*old(storage)) && archive_now(*old(storage)) is Ok ==> r is Ok,
        kept_but_active(*old(storage), *final(storage)),
        r matches Err(e) ==> read_error(e),
        r is Ok ==> exists|today: Date| today.valid() && #[trigger] archive_done(*old(storage), *final(storage),
            ids@, today, old(printer).printed(), final(printer).printed())
            && final(printer).warned() == old(printer).warned() + match (tasks_now(*old(storage)), archive_now(*old(storage))) {
                (Ok(s), Ok(a)) => warning_line(archive_all(s, a, ids@, today).warning),
                _ => Seq::<char>::empty(),
            },
        r is Err ==> final(printer).warned() == old(printer).warned(),
        (tasks_now(*old(storage)) is Err || archive_now(*old(storage)) is Err) ==> r is Err
            && *final(storage) == *old(storage) && final(printer).printed() == old(printer).printed(),
{
    let today = crate::date::today();
    archive_in_store(storage, printer, ids, today)
}

pub open spec fn cleared_text() -> Seq<char> {
    seq!['A', 'r', 'c', 'h', 'i', 'v', 'e', 'd', ' ', 'c', 'o', 'm', 'p', 'l', 'e', 't', 'e', 'd', ' ', 't', 'a', 's', 'k', 's']
}

/// The tasks that have a date, in their order.
pub open spec fn dated(s: Seq<TaskView>) -> Seq<TaskView> {
    s.filter(|t: TaskView| t.active_date is Some)
}

/// What clearing did: the list was written back as `kept_after_clear` leaves it,
/// the archive with what `added_by_clear` adds (ids counted on from the list's
/// next id; a task without a date is left out of the archive), and a line printed.
pub open spec fn clear_done<S: TaskStorage>(a: S, b: S, p0: Seq<char>, p1: Seq<char>) -> bool {
    match (tasks_now(a), archive_now(a)) {
        (Ok(s), Ok(arch)) => {
            &&& tasks_now(b) == written_tasks(kept_after_clear(s))
            &&& archive_now(b) == written_archive(arch + dated(added_by_clear(s, next_id_of(s))))
            &&& p1 == p0 + cleared_text() + seq!['\n']
        },
        _ => false,
    }
}

/// The tasks that have a date (copies).
fn dated_items(items: &Vec<TaskItem>) -> (r: Vec<TaskItem>)
    ensures
        views(r@) == dated(views(items@)),
{
    let ghost vs = views(items@);
    let mut r: Vec<TaskItem> = Vec::new();
    let mut i: usize = 0;
    proof {
        reveal(Seq::filter);
        assert(vs.take(0) =~= Seq::<TaskView>::empty());
    }
    while i < items.len()
        invariant
            i <= items.len(),
            vs == views(items@),
            views(r@) == dated(vs.take(i as int)),
        decreases items.len() - i,
    {
        assert(vs.take(i + 1).drop_last() =~= vs.take(i as int));
        assert(vs.take(i + 1).last() == items@[i as int]@);
        reveal(Seq::filter);
        let ghost before = views(r@);
        if items[i].active_date.is_some() {
            let t = items[i].clone();
            r.push(t);
            assert(views(r@) =~= before.push(t@));
        }
        i += 1;
    }
    assert(vs.take(items.len() as int) =~= vs);
    r
}

/// Archives the active board's done tasks, moves the tasks in progress back to do
/// and archives a copy of each under a new id, and moves any archived task left in
/// the list to the archive (`clear`). Fails if no ids are left for the copies.
pub fn clear<S: TaskStorage, W: Printer>(storage: &mut S, printer: &mut W) -> (r: Result<(), FiniError>)
    ensures
        ready_with(*old(storage), |s: Seq<TaskView>| max_id(s) + s.len() + 2 <= usize::MAX) && archive_now(*old(storage)) is Ok ==> r is Ok,
        r matches Err(e) ==> read_error(e),
        kept_but_active(*old(storage), *final(storage)),
        r is Ok ==> clear_done(*old(storage), *final(storage), old(printer).printed(), final(printer).printed()),
        (tasks_now(*old(storage)) is Err || archive_now(*old(storage)) is Err) ==> r is Err
            && *final(storage) == *old(storage) && final(printer).printed() == old(printer).printed(),
        r is Err ==> final(printer).printed() == old(printer).printed(),
{
    let tasks = storage.read_tasks()?;
    let mut archived = storage.read_archived()?;
    let ghost s = views(tasks@);
    let ghost a = views(archived@);
    let m = max_task_id(&tasks);
    if m >= usize::MAX - 1 || tasks.len() > usize::MAX - 1 - (m + 1) {
        return Err(FiniError::Store(lit_string("no task id is left")));
    }
    let next = m + 1;
    let (kept, added) = clear_tasks(&tasks, next);
    proof {
        lemma_clear_dates(s, next as nat);
        lemma_filter_dates(added_by_clear(s, next as nat), |t: TaskView| t.active_date is Some);
    }
    let mut added_dated = dated_items(&added);
    proof {
        let d = views(added_dated@);
        assert forall|i: int| 0 <= i < d.len() implies dated_ok(#[trigger] d[i]) by {
            lemma_filter_members(views(added@), |t: TaskView| t.active_date is Some);
            reveal(Seq::filter);
            let j = choose|j: int| 0 <= j < views(added@).len() && views(added@)[j] == d[i];
            assert(date_ok(views(added@)[j]));
            views(added@).lemma_filter_pred(|t: TaskView| t.active_date is Some, i);
        }
    }
    archived.append(&mut added_dated);
    proof {
        let all = views(archived@);
        assert(all =~= a + dated(added_by_clear(s, next as nat)));
        assert forall|i: int| 0 <= i < all.len() implies dated_ok(#[trigger] all[i]) by {
            if i < a.len() {
                assert(all[i] == a[i]);
            } else {
                assert(all[i] == dated(added_by_clear(s, next as nat))[i - a.len()]);
            }
        }
    }
    storage.write_tasks(kept)?;
    storage.write_archived(archived)?;
    printer.print("Archived completed tasks");
    proof {
        reveal_strlit("Archived completed tasks");
    }
    assert(printer.printed() =~= old(printer).printed() + cleared_text() + seq!['\n']);
    Ok(())
}

/// The parts with `sep` between them (as `[String]::join(sep)` gives them).
pub open spec fn join_with(parts: Seq<Seq<char>>, sep: Seq<char>) -> Seq<char>
    decreases parts.len(),
{
    if parts.len() == 0 {
        Seq::empty()
    } else if parts.len() == 1 {
        parts[0]
    } else {
        join_with(parts.drop_last(), sep) + sep + parts.last()
    }
}

proof fn lemma_join_push(parts: Seq<Seq<char>>, sep: Seq<char>, x: Seq<char>)
    ensures
        join_with(parts.push(x), sep) == if parts.len() == 0 { x } else { join_with(parts, sep) + sep + x },
{
    assert(parts.push(x).drop_last() =~= parts);
    if parts.len() == 0 {
        assert(parts.push(x)[0] == x);
    }
}

/// `texts[k]` is the text of the task `sel[k]` in the link format.
pub open spec fn link_texts(sel: Seq<TaskView>, format: LinkFormat, texts: Seq<Seq<char>>) -> bool {
    &&& texts.len() == sel.len()
    &&& forall|k: int| 0 <= k < sel.len() ==> shows_link(sel[k], format, #[trigger] texts[k])
}

/// The tasks' texts with their links after their titles.
pub open spec fn adjacent_texts(sel: Seq<TaskView>) -> Seq<Seq<char>> {
    Seq::new(sel.len(), |k: int| adjacent_text(sel[k]))
}

/// What is copied for the tasks: for `RichText`, their HTML links joined by
/// `<br>`, with their texts and links joined by line breaks as the alternative;
/// for any other format, their texts in the format, one per line.
pub open spec fn copy_payload(sel: Seq<TaskView>, format: LinkFormat, texts: Seq<Seq<char>>) -> PayloadView {
    if format == LinkFormat::RichText {
        PayloadView::Html(join_with(texts, seq!['<', 'b', 'r', '>']), join_with(adjacent_texts(sel), seq!['\n']))
    } else {
        PayloadView::Text(join_with(texts, seq!['\n']))
    }
}

pub open spec fn nothing_to_copy_text() -> Seq<char> {
    seq!['N', 'o', ' ', 't', 'a', 's', 'k', 's', ' ', 't', 'o', ' ', 'c', 'o', 'p', 'y']
}

pub open spec fn copied_one_prefix() -> Seq<char> {
    seq!['C', 'o', 'p', 'i', 'e', 'd', ' ', 't', 'e', 'x', 't', ' ', 'f', 'o', 'r', ' ', 't', 'a', 's', 'k', ':', ' ']
}

pub open spec fn copied_many_text() -> Seq<char> {
    seq!['C', 'o', 'p', 'i', 'e', 'd', ' ', 't', 'e', 'x', 't', ' ', 'f', 'o', 'r', ' ', 's', 'e', 'l', 'e', 'c', 't', 'e', 'd', ' ', 't', 'a', 's', 'k', 's']
}

/// What copying prints: that there was nothing to copy, the one task's text (for
/// `RichText` its alternative text), or that the selected tasks were copied.
pub open spec fn copy_message(sel: Seq<TaskView>, format: LinkFormat, texts: Seq<Seq<char>>) -> Seq<char> {
    if sel.len() == 0 {
        nothing_to_copy_text() + seq!['\n']
    } else if sel.len() == 1 {
        copied_one_prefix() + (if format == LinkFormat::RichText { adjacent_text(sel[0]) } else { texts[0] })
            + seq!['\n']
    } else {
        copied_many_text() + seq!['\n']
    }
}

/// Copying the selected tasks in the format left the copier holding their payload
/// and printed the message.
pub open spec fn copied_as<C: Copier>(sel: Seq<TaskView>, format: LinkFormat, c: C, p0: Seq<char>, p1: Seq<char>) -> bool {
    exists|texts: Seq<Seq<char>>|
        #[trigger] link_texts(sel, format, texts) && c.holds(copy_payload(sel, format, texts))
            && p1 == p0 + copy_message(sel, format, texts)
}

/// What copying the tasks with the ids did: the active board's tasks with those
/// ids, in the list's order, were copied (see `copy_payload`) and reported.
pub open spec fn copy_done<S: TaskStorage, C: Copier>(
    st: S,
    c: C,
    ids: Seq<usize>,
    format: LinkFormat,
    p0: Seq<char>,
    p1: Seq<char>,
) -> bool {
    match tasks_now(st) {
        Ok(s) => copied_as(with_ids(s, ids), format, c, p0, p1),
        Err(_) => false,
    }
}

/// Copies the active board's tasks with the ids, in the list's order, in the link
/// format (`RichText` as HTML with a plain alternative), and prints what was copied.
pub fn copy<S: TaskStorage, C: Copier, W: Printer>(
    storage: &S,
    copier: &mut C,
    printer: &mut W,
    ids: &Vec<usize>,
    format: LinkFormat,
) -> (r: Result<(), FiniError>)
    ensures
        r matches Err(e) ==> read_error(e) || e is Clipboard,
        r is Ok ==> copy_done(*storage, *final(copier), ids@, format, old(printer).printed(), final(printer).printed()),
        r is Err ==> final(printer).printed() == old(printer).printed(),
        tasks_now(*storage) is Err ==> r is Err,
        ready(*storage) && old(copier).dependable() ==> r is Ok,
        old(copier).dependable() ==> final(copier).dependable(),
{
    let tasks = storage.read_tasks()?;
    let sel = get_tasks_for_ids(tasks, ids);
    let ghost sv = views(sel@);
    let mut parts: Vec<String> = Vec::new();
    let mut text = TextPayload(String::new());
    let mut html = HtmlPayload { html: String::new(), alt: String::new() };
    let mut alts: Vec<String> = Vec::new();
    let mut k: usize = 0;
    let ghost sep_html = seq!['<', 'b', 'r', '>'];
    while k < sel.len()
        invariant
            k <= sel.len(),
            sv == views(sel@),
            sep_html == seq!['<', 'b', 'r', '>'],
            parts.len() == k,
            alts.len() == k,
            forall|j: int| 0 <= j < k ==> shows_link(sv[j], format, #[trigger] parts@[j]@),
            texts(alts@) == adjacent_texts(sv).take(k as int),
            text.0@ == join_with(texts(parts@), seq!['\n']),
            html.html@ == join_with(texts(parts@), sep_html),
            html.alt@ == join_with(texts(alts@), seq!['\n']),
        decreases sel.len() - k,
    {
        let t = get_task_link_for_format(&sel[k], format);
        let a = adjacent_string(&sel[k]);
        let ghost before = texts(parts@);
        let ghost abefore = texts(alts@);
        proof {
            lemma_join_push(before, seq!['\n'], t@);
            lemma_join_push(before, sep_html, t@);
            lemma_join_push(abefore, seq!['\n'], a@);
        }
        if k == 0 {
            text = TextPayload(t.clone());
            html = HtmlPayload { html: t.clone(), alt: a.clone() };
        } else {
            text = text.combine(TextPayload(t.clone()));
            html = html.combine(HtmlPayload { html: t.clone(), alt: a.clone() });
        }
        parts.push(t);
        alts.push(a);
        assert(texts(parts@) =~= before.push(parts@[k as int]@));
        assert(texts(alts@) =~= abefore.push(alts@[k as int]@));
        assert(texts(alts@) =~= adjacent_texts(sv).take(k + 1));
        k += 1;
    }
    proof {
        assert(texts(alts@) =~= adjacent_texts(sv));
        assert(link_texts(sv, format, texts(parts@)));
    }
    let payload = if format == LinkFormat::RichText { html.into_payload() } else { text.into_payload() };
    copier.copy(&payload)?;
    let n = sel.len();
    if n == 0 {
        printer.print("No tasks to copy");
        proof {
            reveal_strlit("No tasks to copy");
        }
    } else if n == 1 {
        let shown = if format == LinkFormat::RichText { alts[0].as_str() } else { parts[0].as_str() };
        let m = joined_message("Copied text for task: ", shown);
        printer.print(m.as_str());
        proof {
            reveal_strlit("Copied text for task: ");
        }
    } else {
        printer.print("Copied text for selected tasks");
        proof {
            reveal_strlit("Copied text for selected tasks");
        }
    }
    assert(printer.printed() =~= old(printer).printed() + copy_message(sv, format, texts(parts@)));
    assert(copied_as(sv, format, *copier, old(printer).printed(), printer.printed()));
    Ok(())
}

/// The text with the whitespace at both ends taken off (`str::trim`).
pub fn trimmed(s: &str) -> (r: String)
    ensures
        r@ == trim(s@),
{
    let cs = chars_of(s);
    let t = trim_vec(&cs);
    let r = string_of(&t, 0, t.len());
    assert(r@ =~= trim(s@));
    r
}

/// The task's link, or nothing.
pub open spec fn link_or_empty(t: TaskView) -> Seq<char> {
    match t.link {
        Some(l) => l,
        None => Seq::empty(),
    }
}

pub open spec fn no_changes_text() -> Seq<char> {
    seq!['N', 'o', ' ', 'c', 'h', 'a', 'n', 'g', 'e', 's', ' ', 'm', 'a', 'd', 'e']
}

pub open spec fn updated_prefix() -> Seq<char> {
    seq!['U', 'p', 'd', 'a', 't', 'e', 'd', ' ', 't', 'a', 's', 'k', ':', ' ']
}

/// What editing the link of the task at `i` of the list `s` (read from `a`) did,
/// `new` being the user's answer trimmed: nothing for an empty answer, `No changes
/// made` for the link it had, and otherwise the list written back with the new
/// link.
pub open spec fn link_edit<S: TaskStorage>(
    s: Seq<TaskView>,
    i: int,
    new: Seq<char>,
    a: S,
    b: S,
    p0: Seq<char>,
    p1: Seq<char>,
    w0: Seq<char>,
    w1: Seq<char>,
) -> bool {
    &&& archive_now(b) == archive_now(a)
    &&& if new.len() == 0 {
        tasks_now(b) == tasks_now(a) && p1 == p0 && w1 == w0 + empty_link_warning() + seq!['\n']
    } else if new == link_or_empty(s[i]) {
        tasks_now(b) == tasks_now(a) && p1 == p0 + no_changes_text() + seq!['\n'] && w1 == w0
    } else {
        &&& tasks_now(b) == written_tasks(s.update(i, TaskView { link: Some(new), ..s[i] }))
        &&& p1 == p0 + updated_prefix() + new + seq!['\n']
        &&& w1 == w0
    }
}

pub open spec fn edit_link_question() -> Seq<char> {
    seq!['E', 'd', 'i', 't', ' ', 'l', 'i', 'n', 'k', ':']
}

pub open spec fn edit_task_question() -> Seq<char> {
    seq!['E', 'd', 'i', 't', ' ', 't', 'a', 's', 'k', ':']
}

pub open spec fn edit_link_wanted_question() -> Seq<char> {
    seq!['D', 'o', ' ', 'y', 'o', 'u', ' ', 'w', 'a', 'n', 't', ' ', 't', 'o', ' ', 'e', 'd', 'i', 't', ' ', 't', 'h', 'e',
        ' ', 'l', 'i', 'n', 'k', '?']
}

/// What editing the link of the task with the id in the list `s` did: nothing but
/// a warning if no task has it; otherwise what the user's answer (to `Edit link:`,
/// offering the link it has) made of it.
pub open spec fn link_edited<S: TaskStorage, P: Prompter>(
    pr: P,
    s: Seq<TaskView>,
    id: nat,
    a: S,
    b: S,
    p0: Seq<char>,
    p1: Seq<char>,
    w0: Seq<char>,
    w1: Seq<char>,
) -> bool {
    if find_index(s, id) < 0 {
        tasks_now(b) == tasks_now(a) && archive_now(b) == archive_now(a) && p1 == p0
            && w1 == w0 + no_task_warning(id) + seq!['\n']
    } else {
        exists|reply: Seq<char>|
            #[trigger] link_edit(s, find_index(s, id), trim(reply), a, b, p0, p1, w0, w1)
                && pr.may_give_edit(edit_link_question(), link_or_empty(s[find_index(s, id)]), Ok(reply))
    }
}

/// What editing the link of the active board's task with the id did (`w0` and `w1`
/// the warnings before and after).
pub open spec fn edit_link_done<S: TaskStorage, P: Prompter>(pr: P, a: S, b: S, id: nat, p0: Seq<char>, p1: Seq<char>, w0: Seq<char>, w1: Seq<char>) -> bool {
    match tasks_now(a) {
        Ok(s) => link_edited(pr, s, id, a, b, p0, p1, w0, w1),
        Err(_) => false,
    }
}

/// The warning that an answer for a link was empty.
pub open spec fn empty_link_warning() -> Seq<char> {
    seq!['\u{26a0}', '\u{fe0f}', ' ', 'l', 'i', 'n', 'k', ' ', 'c', 'a', 'n', 'n', 'o', 't', ' ', 'b', 'e', ' ', 'e', 'm',
        'p', 't', 'y']
}

/// The warning that an answer for a title was empty.
pub open spec fn empty_title_warning() -> Seq<char> {
    seq!['\u{26a0}', '\u{fe0f}', ' ', 'T', 'i', 't', 'l', 'e', ' ', 'c', 'a', 'n', 'n', 'o', 't', ' ', 'b', 'e', ' ', 'e',
        'm', 'p', 't', 'y']
}

/// Asks for a new link for the active board's task with the id (offering the one it
/// has), trims the answer, and keeps it if it is new and not empty.
pub fn edit_link<S: TaskStorage, P: Prompter, W: Printer>(
    storage: &mut S,
    prompter: &P,
    printer: &mut W,
    id: usize,
) -> (r: Result<(), FiniError>)
    ensures
        ready(*old(storage)) && always_replies(*prompter) ==> r is Ok,
        kept_but_active(*old(storage), *final(storage)),
        r is Ok ==> edit_link_done(*prompter, *old(storage), *final(storage), id as nat, old(printer).printed(), final(printer).printed(),
            old(printer).warned(), final(printer).warned()),
        r is Err ==> final(printer).warned() == old(printer).warned(),
        r matches Err(e) ==> read_error(e) || e is Prompt,
        tasks_now(*old(storage)) is Err ==> r is Err && *final(storage) == *old(storage)
            && final(printer).printed() == old(printer).printed(),
{
    let mut tasks = storage.read_tasks()?;
    let ghost s = views(tasks@);
    let i = match find_task(&tasks, id) {
        None => {
            let w = no_task_message(id);
            printer.warn(w.as_str());
            return Ok(());
        },
        Some(i) => i,
    };
    let current = match &tasks[i].link {
        Some(l) => l.clone(),
        None => String::new(),
    };
    let answer = prompter.text_with_initial("Edit link:", current.as_str());
    proof {
        reveal_strlit("Edit link:");
        assert("Edit link:"@ =~= edit_link_question());
        assert(current@ == link_or_empty(s[i as int]));
    }
    let reply = answer?;
    assert(prompter.may_give_edit(edit_link_question(), link_or_empty(s[i as int]), Ok(reply@)));
    let new_link = trimmed(reply.as_str());
    if new_link.as_str().is_empty() {
        printer.warn("\u{26a0}\u{fe0f} link cannot be empty");
        proof {
            reveal_strlit("\u{26a0}\u{fe0f} link cannot be empty");
        }
        assert(printer.warned() =~= old(printer).warned() + empty_link_warning() + seq!['\n']);
        assert(link_edit(s, i as int, trim(reply@), *old(storage), *storage, old(printer).printed(), printer.printed(),
            old(printer).warned(), printer.warned()));
        return Ok(());
    }
    if new_link == current {
        printer.print("No changes made");
        proof {
            reveal_strlit("No changes made");
        }
        assert(printer.printed() =~= old(printer).printed() + no_changes_text() + seq!['\n']);
        assert(link_edit(s, i as int, trim(reply@), *old(storage), *storage, old(printer).printed(), printer.printed(),
            old(printer).warned(), printer.warned()));
        return Ok(());
    }
    let m = joined_message("Updated task: ", new_link.as_str());
    printer.print(m.as_str());
    proof {
        reveal_strlit("Updated task: ");
    }
    assert(printer.printed() =~= old(printer).printed() + updated_prefix() + new_link@ + seq!['\n']);
    let mut t = tasks[i].clone();
    t.link = Some(new_link);
    let ghost tv = t@;
    tasks.set(i, t);
    proof {
        assert(views(tasks@) =~= s.update(i as int, tv));
        assert(date_ok(s[i as int]));
        lemma_update_dates(s, i as int, tv);
    }
    storage.write_tasks(tasks)?;
    assert(link_edit(s, i as int, trim(reply@), *old(storage), *storage, old(printer).printed(), printer.printed(),
        old(printer).warned(), printer.warned()));
    Ok(())
}

/// What editing the title of the task at `i` of `s` to `new` left: the list
/// written back with the new title if it differs (and `Updated task: ` printed),
/// else as it was.
pub open spec fn title_edit<S: TaskStorage>(
    s: Seq<TaskView>,
    i: int,
    new: Seq<char>,
    a: S,
    m: S,
    p0: Seq<char>,
    pm: Seq<char>,
) -> bool {
    &&& archive_now(m) == archive_now(a)
    &&& m.board() == a.board()
    &&& if new != s[i].title {
        &&& tasks_now(m) == written_tasks(s.update(i, TaskView { title: new, ..s[i] }))
        &&& pm == p0 + updated_prefix() + new + seq!['\n']
    } else {
        tasks_now(m) == tasks_now(a) && pm == p0
    }
}

/// What editing the task at `i` of `s` did, `new` being the user's answer for the
/// title, trimmed: nothing for an empty answer; otherwise the title step, then the
/// link step if the user answered yes to `Do you want to edit the link?`, or nothing
/// more after any other reply.
pub open spec fn task_edit<S: TaskStorage, P: Prompter>(
    pr: P,
    s: Seq<TaskView>,
    i: int,
    id: nat,
    new: Seq<char>,
    a: S,
    b: S,
    p0: Seq<char>,
    p1: Seq<char>,
    w0: Seq<char>,
    w1: Seq<char>,
) -> bool {
    if new.len() == 0 {
        tasks_now(b) == tasks_now(a) && archive_now(b) == archive_now(a) && p1 == p0
            && w1 == w0 + empty_title_warning() + seq!['\n']
    } else {
        exists|m: S, pm: Seq<char>|
            #[trigger] title_edit(s, i, new, a, m, p0, pm) && (
            (pr.may_confirm(edit_link_wanted_question(), Ok(true)) && edit_link_done(pr, m, b, id, pm, p1, w0, w1))
            || (tasks_now(b) == tasks_now(m) && archive_now(b) == archive_now(m) && p1 == pm && w1 == w0
                && exists|x: Result<bool, FiniError>|
                #[trigger] pr.may_confirm(edit_link_wanted_question(), x) && x != Ok::<bool, FiniError>(true)))
    }
}

/// What editing the task with the id in the list `s` did.
pub open spec fn task_edited<S: TaskStorage, P: Prompter>(
    pr: P,
    s: Seq<TaskView>,
    id: nat,
    a: S,
    b: S,
    p0: Seq<char>,
    p1: Seq<char>,
    w0: Seq<char>,
    w1: Seq<char>,
) -> bool {
    &&& 0 <= find_index(s, id)
    &&& exists|reply: Seq<char>|
        #[trigger] task_edit(pr, s, find_index(s, id), id, trim(reply), a, b, p0, p1, w0, w1)
            && pr.may_give_edit(edit_task_question(), s[find_index(s, id)].title, Ok(reply))
}

/// What editing the active board's task with the id did (`w0` and `w1` the
/// warnings before and after).
pub open spec fn edit_task_done<S: TaskStorage, P: Prompter>(pr: P, a: S, b: S, id: nat, p0: Seq<char>, p1: Seq<char>, w0: Seq<char>, w1: Seq<char>) -> bool {
    match tasks_now(a) {
        Ok(s) => task_edited(pr, s, id, a, b, p0, p1, w0, w1),
        Err(_) => false,
    }
}

/// Asks for a new title for the active board's task with the id (offering the one
/// it has) and keeps it, trimmed, if it is new; unless the answer is empty, then
/// asks whether to edit the link, and does so if the user wants. Fails if no task
/// has the id.
pub fn edit_task<S: TaskStorage, P: Prompter, W: Printer>(
    storage: &mut S,
    prompter: &P,
    printer: &mut W,
    id: usize,
) -> (r: Result<(), FiniError>)
    ensures
        ready(*old(storage)) && always_replies(*prompter) && !no_task_with_id(*old(storage), id as nat) ==> r is Ok
            || tasks_now(*final(storage)) is Err,
        kept_but_active(*old(storage), *final(storage)),
        r is Ok ==> edit_task_done(*prompter, *old(storage), *final(storage), id as nat, old(printer).printed(), final(printer).printed(),
            old(printer).warned(), final(printer).warned()),
        r is Err ==> final(printer).warned() == old(printer).warned(),
        no_task_with_id(*old(storage), id as nat) ==> r is Err && *final(storage) == *old(storage)
            && final(printer).printed() == old(printer).printed(),
        no_task_with_id(*old(storage), id as nat) && old(storage).dependable() ==> (r matches Err(e) && e is NoTaskToEdit),
        r matches Err(e) && e is NoTaskToEdit ==> no_task_with_id(*old(storage), id as nat),
        r matches Err(e) ==> read_error(e) || e is NoTaskToEdit || e is Prompt,
        tasks_now(*old(storage)) is Err ==> r is Err && *final(storage) == *old(storage)
            && final(printer).printed() == old(printer).printed(),
{
    let mut tasks = storage.read_tasks()?;
    let ghost s = views(tasks@);
    let i = match find_task(&tasks, id) {
        None => {
            return Err(FiniError::NoTaskToEdit);
        },
        Some(i) => i,
    };
    proof {
        lemma_find_index(s, id as nat);
    }
    let answer = prompter.text_with_initial("Edit task:", tasks[i].title.as_str());
    proof {
        reveal_strlit("Edit task:");
        assert("Edit task:"@ =~= edit_task_question());
    }
    let reply = answer?;
    assert(prompter.may_give_edit(edit_task_question(), s[i as int].title, Ok(reply@)));
    let new_title = trimmed(reply.as_str());
    if new_title.as_str().is_empty() {
        printer.warn("\u{26a0}\u{fe0f} Title cannot be empty");
        proof {
            reveal_strlit("\u{26a0}\u{fe0f} Title cannot be empty");
        }
        assert(printer.warned() =~= old(printer).warned() + empty_title_warning() + seq!['\n']);
        assert(task_edit(*prompter, s, i as int, id as nat, trim(reply@), *old(storage), *storage, old(printer).printed(), printer.printed(),
            old(printer).warned(), printer.warned()));
        return Ok(());
    }
    if !(new_title == tasks[i].title) {
        let mut t = tasks[i].clone();
        t.title = new_title.clone();
        let ghost tv = t@;
        tasks.set(i, t);
        proof {
            assert(views(tasks@) =~= s.update(i as int, tv));
            lemma_update_dates(s, i as int, tv);
        }
        storage.write_tasks(tasks)?;
        let m = joined_message("Updated task: ", new_title.as_str());
        printer.print(m.as_str());
        proof {
            reveal_strlit("Updated task: ");
        }
        assert(printer.printed() =~= old(printer).printed() + updated_prefix() + new_title@ + seq!['\n']);
    }
    let ghost m = *storage;
    let ghost pm = printer.printed();
    assert(title_edit(s, i as int, new_title@, *old(storage), m, old(printer).printed(), pm));
    let wanted = prompter.confirm("Do you want to edit the link?");
    proof {
        reveal_strlit("Do you want to edit the link?");
        assert("Do you want to edit the link?"@ =~= edit_link_wanted_question());
    }
    assert(prompter.may_confirm(edit_link_wanted_question(), wanted));
    let wants_link = match wanted {
        Ok(b) => b,
        Err(_) => false,
    };
    if wants_link {
        edit_link(storage, prompter, printer, id)?;
    }
    assert(task_edit(*prompter, s, i as int, id as nat, trim(reply@), *old(storage), *storage, old(printer).printed(), printer.printed(),
        old(printer).warned(), printer.warned()));
    Ok(())
}

/// The id is that of one of the tasks.
pub open spec fn id_among(vs: Seq<TaskView>, id: usize) -> bool {
    exists|i: int| 0 <= i < vs.len() && #[trigger] vs[i].id == id as nat
}

/// The id is that of one of the tasks that the active board's list shows.
pub open spec fn shown_id<S: TaskStorage>(st: S, id: usize) -> bool {
    match tasks_now(st) {
        Ok(s) => id_among(visible_sorted(s), id),
        Err(_) => false,
    }
}

/// The tasks as offered for a choice: each with its status, without its link.
fn choice_texts(visible: &Vec<TaskItem>) -> (r: Vec<String>)
    ensures
        r.len() == visible.len(),
{
    let mut r: Vec<String> = Vec::new();
    let mut k: usize = 0;
    while k < visible.len()
        invariant
            k <= visible.len(),
            r.len() == k,
        decreases visible.len() - k,
    {
        r.push(crate::task_item::with_status_string(&visible[k], LinkFormat::NoLink));
        k += 1;
    }
    r
}

/// The ids of the tasks at the chosen positions of the list as shown, in the order
/// chosen.
pub open spec fn picked_ids(shown: Seq<TaskView>, sel: Seq<usize>) -> Seq<usize> {
    Seq::new(sel.len(), |k: int| shown[sel[k] as int].id as usize)
}

/// The prompter may reply the positions `sel` when asked with the message to choose
/// among the tasks `shown`, and `w` is the ids at those positions.
pub open spec fn picks<P: Prompter>(pr: P, message: Seq<char>, shown: Seq<TaskView>, sel: Seq<usize>, w: Seq<usize>) -> bool {
    &&& pr.may_choose_many(message, shown.len(), Ok(sel))
    &&& forall|k: int| 0 <= k < sel.len() ==> #[trigger] sel[k] < shown.len()
    &&& w == picked_ids(shown, sel)
}

/// `w` is what the user chose, asked with the message, among the tasks the store's
/// list shows: the ids at the positions the prompter replied.
pub open spec fn picked_from<S: TaskStorage, P: Prompter>(pr: P, message: Seq<char>, st: S, w: Seq<usize>) -> bool {
    match tasks_now(st) {
        Ok(s) => exists|sel: Seq<usize>| #[trigger] picks(pr, message, visible_sorted(s), sel, w),
        Err(_) => false,
    }
}

/// `c` is what the user chose, asked with the message, among the tasks the store's
/// list shows: the id at the position the prompter replied, or none if it replied
/// none.
pub open spec fn picked_one_from<S: TaskStorage, P: Prompter>(pr: P, message: Seq<char>, st: S, c: Option<usize>) -> bool {
    match tasks_now(st) {
        Ok(s) => exists|x: Option<usize>|
            #[trigger] pr.may_choose_one(message, visible_sorted(s).len(), Ok(x)) && match x {
                Some(i) => i < visible_sorted(s).len() && c == Some(visible_sorted(s)[i as int].id as usize),
                None => c is None,
            },
        Err(_) => false,
    }
}

/// Asks the user to choose one of the tasks that the active board's list shows (in
/// its order, each with its status): its id, or `None` if the user cancelled.
pub fn prompt_for_task_id<S: TaskStorage, P: Prompter>(storage: &S, prompter: &P, message: &str) -> (r: Result<Option<usize>, FiniError>)
    ensures
        ready(*storage) && always_replies(*prompter) ==> r is Ok,
        r matches Err(e) ==> read_error(e) || e is Prompt,
        r matches Ok(Some(id)) ==> shown_id(*storage, id),
        r matches Ok(c) ==> picked_one_from(*prompter, message@, *storage, c),
        tasks_now(*storage) is Err ==> r is Err,
{
    let items = storage.read_tasks()?;
    let visible = sort_visible_items(&items);
    let options = choice_texts(&visible);
    let answer = prompter.select_one(message, &options)?;
    assert(prompter.may_choose_one(message@, visible_sorted(views(items@)).len(), Ok(answer)));
    match answer {
        Some(i) => {
            assert(views(visible@)[i as int].id == visible@[i as int].id);
            Ok(Some(visible[i].id))
        },
        None => Ok(None),
    }
}

/// Asks the user to choose any of the tasks that the active board's list shows:
/// their ids (none if the user cancelled).
pub fn prompt_for_task_ids<S: TaskStorage, P: Prompter>(storage: &S, prompter: &P, message: &str) -> (r: Result<Vec<usize>, FiniError>)
    ensures
        ready(*storage) && always_replies(*prompter) ==> r is Ok,
        r matches Err(e) ==> read_error(e) || e is Prompt,
        r matches Ok(v) ==> forall|k: int| 0 <= k < v.len() ==> shown_id(*storage, #[trigger] v@[k]),
        r matches Ok(v) ==> picked_from(*prompter, message@, *storage, v@),
        tasks_now(*storage) is Err ==> r is Err,
{
    let items = storage.read_tasks()?;
    let visible = sort_visible_items(&items);
    let options = choice_texts(&visible);
    let chosen = prompter.select_many(message, &options)?;
    let ghost vs = views(visible@);
    assert(prompter.may_choose_many(message@, vs.len(), Ok(chosen@)));
    let mut ids: Vec<usize> = Vec::new();
    let mut k: usize = 0;
    while k < chosen.len()
        invariant
            k <= chosen.len(),
            ids.len() == k,
            options.len() == visible.len(),
            forall|j: int| 0 <= j < chosen.len() ==> #[trigger] chosen@[j] < options.len(),
            forall|j: int| 0 <= j < k ==> id_among(views(visible@), #[trigger] ids@[j]),
            vs == views(visible@),
            ids@ == picked_ids(vs, chosen@.take(k as int)),
        decreases chosen.len() - k,
    {
        let p = chosen[k];
        assert(views(visible@)[p as int].id == visible@[p as int].id);
        ids.push(visible[p].id);
        assert(ids@ =~= picked_ids(vs, chosen@.take(k + 1)));
        k += 1;
    }
    assert(chosen@.take(k as int) =~= chosen@);
    proof {
        let s0 = views(items@);
        let t0 = tasks_now(*storage);
        assert(t0->Ok_0 == s0);
        assert(picks(*prompter, message@, visible_sorted(s0), chosen@, ids@));
        assert(match t0 { Ok(s) => exists|sel: Seq<usize>| #[trigger] picks(*prompter, message@, visible_sorted(s), sel, ids@), Err(_) => false });
    }
    Ok(ids)
}

/// A task that toggling twice gives back: for the star, one not explicitly
/// unstarred; for beginning and checking, a task to do without a date.
pub open spec fn toggles_back(kind: Toggle, t: TaskView) -> bool {
    if kind == Toggle::Star {
        t.star != Some(false)
    } else {
        t.status == Status::Todo && t.active_date is None
    }
}

/// Law: checking a task that is not done marks it done as of today, whatever date
/// it had before; nothing else of it changes.
pub proof fn law_check_dates_today(t: TaskView, today: Date)
    requires
        t.status != Status::Done,
    ensures
        toggled(Toggle::Check, t, today) == (TaskView { status: Status::Done, active_date: Some(today), ..t }),
{
}

/// Law: beginning a task that is not in progress puts it in progress as of today,
/// whatever date it had before; nothing else of it changes.
pub proof fn law_begin_dates_today(t: TaskView, today: Date)
    requires
        t.status != Status::InProgress,
    ensures
        toggled(Toggle::Begin, t, today) == (TaskView { status: Status::InProgress, active_date: Some(today), ..t }),
{
}

/// Law: checking a done task, or beginning a task in progress, moves it back to do
/// and takes its date away; nothing else of it changes.
pub proof fn law_toggle_moves_back(kind: Toggle, t: TaskView, today: Date)
    requires
        (kind == Toggle::Check && t.status == Status::Done) || (kind == Toggle::Begin && t.status == Status::InProgress),
    ensures
        toggled(kind, t, today) == (TaskView { status: Status::Todo, active_date: None, ..t }),
{
}

/// Law: starring a task that is not starred stars it, and starring a starred task
/// takes its star away; nothing else of it changes, its date and status included.
pub proof fn law_star_flips(t: TaskView, today: Date)
    ensures
        t.star != Some(true) ==> toggled(Toggle::Star, t, today) == (TaskView { star: Some(true), ..t }),
        t.star == Some(true) ==> toggled(Toggle::Star, t, today) == (TaskView { star: None, ..t }),
{
}

/// Law: checking the task with the id in a list, where it is not done, marks the
/// first task with the id done as of today, whatever date it had; every other task
/// stays as it was, and no id is missing.
pub proof fn law_check_in_list(s: Seq<TaskView>, id: usize, today: Date)
    requires
        0 <= find_index(s, id as nat),
        s[find_index(s, id as nat)].status != Status::Done,
    ensures
        toggle_all(Toggle::Check, s, seq![id], today).tasks == s.update(
            find_index(s, id as nat),
            TaskView { status: Status::Done, active_date: Some(today), ..s[find_index(s, id as nat)] },
        ),
        toggle_all(Toggle::Check, s, seq![id], today).missing is None,
{
    let ids = seq![id];
    assert(ids.drop_last() =~= Seq::<usize>::empty());
    assert(ids.last() == id);
    let r0 = toggle_all(Toggle::Check, s, ids.drop_last(), today);
    assert(r0.tasks == s && r0.missing is None);
}

/// Law: beginning the task with the id in a list, where it is not in progress, puts
/// the first task with the id in progress as of today, whatever date it had; every
/// other task stays as it was, and no id is missing.
pub proof fn law_begin_in_list(s: Seq<TaskView>, id: usize, today: Date)
    requires
        0 <= find_index(s, id as nat),
        s[find_index(s, id as nat)].status != Status::InProgress,
    ensures
        toggle_all(Toggle::Begin, s, seq![id], today).tasks == s.update(
            find_index(s, id as nat),
            TaskView { status: Status::InProgress, active_date: Some(today), ..s[find_index(s, id as nat)] },
        ),
        toggle_all(Toggle::Begin, s, seq![id], today).missing is None,
{
    let ids = seq![id];
    assert(ids.drop_last() =~= Seq::<usize>::empty());
    assert(ids.last() == id);
    let r0 = toggle_all(Toggle::Begin, s, ids.drop_last(), today);
    assert(r0.tasks == s && r0.missing is None);
}

/// The tasks that clearing keeps: those to do or in progress, in their order.
pub open spec fn unfinished(s: Seq<TaskView>) -> Seq<TaskView> {
    s.filter(|t: TaskView| t.status == Status::Todo || t.status == Status::InProgress)
}

/// Law: clearing keeps exactly the tasks to do and in progress, in their order,
/// each as it was but for its status, which is to do: a task to do stays just as it
/// was (star, link and date included), a task in progress goes back to do, and done
/// and archived tasks leave the list.
pub proof fn law_clear_keeps_unfinished(s: Seq<TaskView>)
    ensures
        kept_after_clear(s) == unfinished(s).map_values(|t: TaskView| TaskView { status: Status::Todo, ..t }),
    decreases s.len(),
{
    let f = |t: TaskView| t.status == Status::Todo || t.status == Status::InProgress;
    let g = |t: TaskView| TaskView { status: Status::Todo, ..t };
    if s.len() == 0 {
        assert(unfinished(s) =~= Seq::<TaskView>::empty());
        assert(unfinished(s).map_values(g) =~= Seq::<TaskView>::empty());
    } else {
        let init = s.drop_last();
        let x = s.last();
        law_clear_keeps_unfinished(init);
        assert(s =~= init + seq![x]);
        Seq::filter_distributes_over_add(init, seq![x], f);
        reveal(Seq::filter);
        assert(seq![x].drop_last() =~= Seq::<TaskView>::empty());
        assert(Seq::<TaskView>::empty().filter(f) =~= Seq::<TaskView>::empty());
        let fx = seq![x].filter(f);
        assert((init.filter(f) + fx).map_values(g) =~= init.filter(f).map_values(g) + fx.map_values(g));
        if f(x) {
            assert(fx =~= seq![x]);
            assert(fx.map_values(g) =~= seq![g(x)]);
            if x.status == Status::Todo {
                assert(g(x) == x);
            }
            assert(cleared(x) =~= seq![g(x)]);
        } else {
            assert(fx =~= Seq::<TaskView>::empty());
            assert(fx.map_values(g) =~= Seq::<TaskView>::empty());
            assert(cleared(x) =~= Seq::<TaskView>::empty());
        }
        assert(kept_after_clear(s) =~= unfinished(s).map_values(g));
    }
}

/// A task as an archive keeps it, but for its id: archived and without a star.
pub open spec fn archived_unnumbered(t: TaskView) -> TaskView {
    TaskView { id: 0, status: Status::Archived, star: None, ..t }
}

/// Law: clearing archives exactly the tasks that are not to do, in their order: each
/// archived and without a star, with its title, link and date (a task in progress
/// under a new id, any other under its own).
pub proof fn law_clear_archives_finished(s: Seq<TaskView>, next: nat)
    ensures
        added_by_clear(s, next).map_values(|t: TaskView| TaskView { id: 0, ..t })
            == s.filter(|t: TaskView| t.status != Status::Todo).map_values(|t: TaskView| archived_unnumbered(t)),
    decreases s.len(),
{
    let f = |t: TaskView| t.status != Status::Todo;
    let g = |t: TaskView| archived_unnumbered(t);
    let h = |t: TaskView| TaskView { id: 0, ..t };
    if s.len() == 0 {
        assert(s.filter(f) =~= Seq::<TaskView>::empty());
        assert(s.filter(f).map_values(g) =~= Seq::<TaskView>::empty());
        assert(added_by_clear(s, next).map_values(h) =~= Seq::<TaskView>::empty());
    } else {
        let init = s.drop_last();
        let x = s.last();
        law_clear_archives_finished(init, next);
        assert(s =~= init + seq![x]);
        Seq::filter_distributes_over_add(init, seq![x], f);
        reveal(Seq::filter);
        assert(seq![x].drop_last() =~= Seq::<TaskView>::empty());
        assert(Seq::<TaskView>::empty().filter(f) =~= Seq::<TaskView>::empty());
        let fx = seq![x].filter(f);
        assert((init.filter(f) + fx).map_values(g) =~= init.filter(f).map_values(g) + fx.map_values(g));
        let a0 = added_by_clear(init, next);
        let piece = added_by_clear(s, next).subrange(a0.len() as int, added_by_clear(s, next).len() as int);
        assert(added_by_clear(s, next) =~= a0 + piece);
        assert((a0 + piece).map_values(h) =~= a0.map_values(h) + piece.map_values(h));
        if f(x) {
            assert(fx =~= seq![x]);
            assert(fx.map_values(g) =~= seq![g(x)]);
            assert(piece.len() == 1);
            assert(h(piece[0]) == g(x));
            assert(piece.map_values(h) =~= seq![g(x)]);
        } else {
            assert(fx =~= Seq::<TaskView>::empty());
            assert(fx.map_values(g) =~= Seq::<TaskView>::empty());
            assert(piece.map_values(h) =~= Seq::<TaskView>::empty());
        }
        assert(added_by_clear(s, next).map_values(h) =~= s.filter(f).map_values(g));
    }
}

/// Law: toggling a task twice, on the same day, gives back the task (see
/// `toggles_back`): beginning or checking a task to do and then moving it back, or
/// starring and unstarring it.
pub proof fn law_toggle_twice(kind: Toggle, t: TaskView, today: Date)
    requires
        toggles_back(kind, t),
    ensures
        toggled(kind, toggled(kind, t, today), today) == t,
{
    let t1 = toggled(kind, t, today);
    let t2 = toggled(kind, t1, today);
    match kind {
        Toggle::Star => {
            if t.star == Some(true) {
                assert(t1.star is None);
            } else {
                assert(t.star != Some(false));
                if let Some(b) = t.star {
                    assert(b == true || b == false);
                }
                assert(t.star is None);
                assert(t1.star == Some(true));
            }
            assert(t2.star == t.star);
        },
        _ => {
            assert(t2.status == t.status);
            assert(t2.active_date == t.active_date);
        },
    }
    assert(t2.id == t.id && t2.title == t.title && t2.link == t.link && t2.star == t.star);
}

/// Law: toggling the task with an id twice, on the same day, gives back the list,
/// where the task is one that toggling twice gives back; each time one line is
/// printed for beginning and checking, none for the star.
pub proof fn law_toggle_id_twice(kind: Toggle, s: Seq<TaskView>, id: usize, today: Date)
    requires
        find_index(s, id as nat) >= 0,
        toggles_back(kind, s[find_index(s, id as nat)]),
    ensures
        toggle_all(kind, toggle_all(kind, s, seq![id], today).tasks, seq![id], today).tasks == s,
        toggle_all(kind, s, seq![id], today).missing is None,
        toggle_all(kind, s, seq![id], today).lines.len() == if kind == Toggle::Star { 0nat } else { 1nat },
{
    let ids = seq![id];
    assert(ids.drop_last() =~= Seq::<usize>::empty());
    let e = Seq::<usize>::empty();
    assert(toggle_all(kind, s, e, today).tasks == s);
    let i = find_index(s, id as nat);
    lemma_find_index(s, id as nat);
    let once = toggle_all(kind, s, ids, today);
    let t2 = toggled(kind, s[i], today);
    assert(once.tasks == s.update(i, t2));
    // The toggled task is still the first with the id.
    assert forall|k: int| 0 <= k < i implies #[trigger] once.tasks[k].id != id as nat by {
        assert(once.tasks[k] == s[k]);
    }
    lemma_find_index_at(once.tasks, id as nat, i);
    assert(toggle_all(kind, once.tasks, e, today).tasks == once.tasks);
    law_toggle_twice(kind, s[i], today);
    assert(once.tasks.update(i, toggled(kind, once.tasks[i], today)) =~= s);
}

/// Law: after clearing, every task left in the list is to do; what the list loses
/// and the archive gains add up: a task in progress stays (moved back to do) and
/// also gives a copy to the archive, any other task that is not to do goes to the
/// archive, and every task that goes to the archive is archived and unstarred.
pub proof fn law_clear_leaves_todo(s: Seq<TaskView>, next: nat)
    ensures
        forall|k: int| 0 <= k < kept_after_clear(s).len() ==> (#[trigger] kept_after_clear(s)[k]).status == Status::Todo,
        forall|k: int| 0 <= k < added_by_clear(s, next).len() ==> (#[trigger] added_by_clear(s, next)[k]).status == Status::Archived
            && added_by_clear(s, next)[k].star is None,
        kept_after_clear(s).len() + added_by_clear(s, next).len() == s.len() + count_in_progress(s),
    decreases s.len(),
{
    if s.len() > 0 {
        law_clear_leaves_todo(s.drop_last(), next);
        let k0 = kept_after_clear(s.drop_last());
        let a0 = added_by_clear(s.drop_last(), next);
        assert forall|k: int| 0 <= k < kept_after_clear(s).len() implies (#[trigger] kept_after_clear(s)[k]).status == Status::Todo by {
            if k < k0.len() {
                assert(kept_after_clear(s)[k] == k0[k]);
            }
        }
        assert forall|k: int| 0 <= k < added_by_clear(s, next).len() implies (#[trigger] added_by_clear(s, next)[k]).status == Status::Archived
            && added_by_clear(s, next)[k].star is None by {
            if k < a0.len() {
                assert(added_by_clear(s, next)[k] == a0[k]);
            }
        }
    }
}

/// Law: deleting the task that adding just gave the next id takes the list back to
/// what it was (the new id is that of no other task).
pub proof fn law_delete_undoes_add(s: Seq<TaskView>, title: Seq<char>, link: Option<Seq<char>>)
    requires
        next_id_of(s) <= usize::MAX,
    ensures
        without_ids(s.push(new_task(next_id_of(s), title, link)), seq![next_id_of(s) as usize]) == s,
{
    let id = next_id_of(s);
    let ids = seq![id as usize];
    let f = |t: TaskView| !id_in(ids, t.id);
    lemma_next_id_fresh(s);
    reveal(Seq::filter);
    assert(!f(new_task(id, title, link))) by {
        assert(ids[0] as nat == id);
    }
    assert(s.push(new_task(id, title, link)).drop_last() =~= s);
    assert forall|i: int| 0 <= i < s.len() implies #[trigger] f(s[i]) by {
        if id_in(ids, s[i].id) {
            let k = choose|k: int| 0 <= k < ids.len() && ids[k] as nat == s[i].id;
            assert(k == 0);
        }
    }
    lemma_filter_all(s, f);
}

/// A filter that keeps every element keeps the sequence as it is.
proof fn lemma_filter_all<A>(s: Seq<A>, f: spec_fn(A) -> bool)
    requires
        forall|i: int| 0 <= i < s.len() ==> #[trigger] f(s[i]),
    ensures
        s.filter(f) == s,
    decreases s.len(),
{
    reveal(Seq::filter);
    if s.len() > 0 {
        assert forall|i: int| 0 <= i < s.drop_last().len() implies #[trigger] f(s.drop_last()[i]) by {
            assert(s.drop_last()[i] == s[i]);
        }
        lemma_filter_all(s.drop_last(), f);
        assert(f(s[s.len() - 1]));
        assert(s.drop_last().push(s.last()) =~= s);
    } else {
        assert(s.filter(f) =~= s);
    }
}

/// Joining one more part (see `join_with`).
pub proof fn lemma_join_push_pub(parts: Seq<Seq<char>>, sep: Seq<char>, x: Seq<char>)
    ensures
        join_with(parts.push(x), sep) == if parts.len() == 0 { x } else { join_with(parts, sep) + sep + x },
{
    lemma_join_push(parts, sep, x);
}

/// No more tasks are in progress than there are tasks.
pub proof fn lemma_count_bound_pub(s: Seq<TaskView>)
    ensures
        count_in_progress(s) <= s.len(),
{
    lemma_count_bound(s);
}

/// Law: the list shows the tasks that are not archived, each as often as it is
/// there, unfinished before done and starred first, tasks that agree on both in
/// the order of the list.
pub proof fn law_shown_order(s: Seq<TaskView>)
    ensures
        ordered_from(SortKey::DoneThenStar, visible_sorted(s), visible(s)),
        forall|t: TaskView| #[trigger] visible_sorted(s).contains(t) ==> s.contains(t) && t.status != Status::Archived,
{
    law_stable_sort_orders(SortKey::DoneThenStar, visible(s));
    crate::sort::lemma_stable_sort_members(SortKey::DoneThenStar, visible(s));
    lemma_filter_members(s, |t: TaskView| is_visible(t));
    assert forall|t: TaskView| #[trigger] visible_sorted(s).contains(t) implies s.contains(t) && t.status != Status::Archived by {
        let j = choose|j: int| 0 <= j < visible(s).len() && visible(s)[j] == t;
        let k = choose|k: int| 0 <= k < s.len() && s[k] == visible(s)[j];
        assert(s[k] == t);
        assert(is_visible(visible(s)[j])) by {
            s.lemma_filter_pred(|t: TaskView| is_visible(t), j);
        }
    }
}

} // verus!
