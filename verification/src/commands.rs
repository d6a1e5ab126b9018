//! The commands of the program and how each one is carried out.

use vstd::prelude::*;
use crate::error::FiniError;
use crate::storage::{TaskStorage, tasks_now, archive_now, same_contents, read_error};
use crate::prompter::{Prompter, text_reply, always_replies};
use crate::copier::Copier;
use crate::printer::{Printer, printed_lines, print_all};
use crate::date::Date;
use crate::task_item::{TaskItem, TaskView, Status, views, link_view};
use crate::markdown::{date_of_text, all_dated, archived_tasks_as_markdown};
use crate::text::{trim, lacks, chars_of};
use crate::util::{
    next_id_of, add_done, task_for_id, edit_task_done, ids_on_or_after, ids_between, listing_of,
    printed_listing, get_task_for_id, edit_task, prompt_for_task_id, trimmed, get_task_ids_after_date,
    get_task_ids_between, get_tasks_for_ids,
};
use crate::util::{
    Toggle, toggle_done, archive_done, clear_done, copy_done, delete_done, list_shown, archived_shown,
    shown_id, checked_ids, kept_but_active, with_ids, texts, lit_string, joined_message,
    prompt_for_task_ids, toggle_in_store, archive_in_store, copy, list, archived, clear, delete,
    get_checked_task_ids, ready, ready_with, max_id, no_task_with_id, picked_from, picked_one_from,
};
use crate::session::{star_question, copy_question, edit_one_question, SessionCommand, session_entries, session_command_for};

verus! {

/// How the link of a task is written out.
#[derive(Clone, Copy, Debug, PartialEq, Eq, Structural)]
pub enum LinkFormat {
    /// Do not print the link
    NoLink,
    /// Print the link after the task title
    Adjacent,
    /// Print the link after the task title with colors
    AdjacentColor,
    /// Print the link as an OSC 8 hyperlink after the task title
    Hyperlink,
    /// Make the task title into a markdown link
    Markdown,
    /// Print the link after the task title on a new line
    Newline,
    /// Make the task title into an HTML link
    RichText,
}

/// A command of the program. A missing argument is asked for.
pub enum Command {
    /// Add a new task
    Add { title: Option<String>, link: Option<String> },
    /// List all current tasks
    List { format: LinkFormat },
    /// Open a task link in the browser
    Open { id: Option<usize> },
    /// Toggle a task as in-progress
    Begin { ids: Option<Vec<usize>> },
    /// Star or un-star a task
    Star { ids: Option<Vec<usize>> },
    /// Edit a task
    Edit { id: Option<usize> },
    /// Toggle a task as done
    Check { ids: Option<Vec<usize>> },
    /// Mark a task as archived
    Archive { ids: Option<Vec<usize>> },
    /// Delete tasks entirely
    Delete { ids: Option<Vec<usize>> },
    /// Archive done tasks (archives a copy of in-progress tasks)
    Clear,
    /// Copy tasks to the clipboard
    Copy { ids: Option<Vec<usize>>, format: LinkFormat },
    /// Copy all completed or begun tasks to the clipboard
    CopyChecked { format: LinkFormat },
    /// Copy all completed, begun, or archived tasks to the clipboard starting on the date
    CopyAfterDate { date: Option<String>, format: LinkFormat },
    /// List all completed, begun, or archived tasks between dates, inclusive
    ListBetween { date_a: Option<String>, date_b: Option<String>, format: LinkFormat },
    /// List all completed, begun, or archived tasks starting on the date
    ListAfterDate { date: Option<String>, format: LinkFormat },
    /// List all archived tasks
    Archived,
    /// Enter interactive mode
    Interactive,
    /// List all available boards
    Boards,
    /// Print the filesystem path to the current active board
    BoardPath,
    /// Switch to (or create) a board
    Use { name: Option<String> },
}

/// The ids given, as a sequence.
pub open spec fn ids_view(ids: Option<Vec<usize>>) -> Option<Seq<usize>> {
    match ids {
        Some(v) => Some(v@),
        None => None,
    }
}

/// Every id is that of a task the active board's list shows.
pub open spec fn all_shown<S: TaskStorage>(st: S, w: Seq<usize>) -> bool {
    forall|k: int| 0 <= k < w.len() ==> shown_id(st, #[trigger] w[k])
}

/// The ids the command went on with: those given, or the ones the user chose,
/// asked with the message, among the tasks the list shows.
pub open spec fn chosen_ids<S: TaskStorage, P: Prompter>(pr: P, message: Seq<char>, st: S, given: Option<Seq<usize>>, w: Seq<usize>) -> bool {
    match given {
        Some(v) => w == v,
        None => all_shown(st, w) && picked_from(pr, message, st, w),
    }
}

pub open spec fn begin_question() -> Seq<char> {
    seq!['S', 'e', 'l', 'e', 'c', 't', ' ', 't', 'a', 's', 'k', 's', ' ', 't', 'o', ' ', 'b', 'e', 'g', 'i', 'n']
}

pub open spec fn check_question() -> Seq<char> {
    seq!['S', 'e', 'l', 'e', 'c', 't', ' ', 't', 'a', 's', 'k', 's', ' ', 't', 'o', ' ', 'c', 'h', 'e', 'c', 'k']
}

pub open spec fn archive_question() -> Seq<char> {
    seq!['S', 'e', 'l', 'e', 'c', 't', ' ', 't', 'a', 's', 'k', 's', ' ', 't', 'o', ' ', 'a', 'r', 'c', 'h', 'i', 'v', 'e']
}

pub open spec fn delete_many_question() -> Seq<char> {
    seq!['S', 'e', 'l', 'e', 'c', 't', ' ', 't', 'a', 's', 'k', 's', ' ', 't', 'o', ' ', 'd', 'e', 'l', 'e', 't', 'e']
}

pub open spec fn open_question() -> Seq<char> {
    seq!['S', 'e', 'l', 'e', 'c', 't', ' ', 't', 'a', 's', 'k', ' ', 't', 'o', ' ', 'o', 'p', 'e', 'n']
}


/// The ids given, or the user's choice among the tasks the list shows.
fn ids_or_prompt<S: TaskStorage, P: Prompter>(
    storage: &S,
    prompter: &P,
    ids: Option<Vec<usize>>,
    message: &str,
) -> (r: Result<Vec<usize>, FiniError>)
    ensures
        ready(*storage) && (ids is None ==> always_replies(*prompter)) ==> r is Ok,
        r matches Err(e) ==> read_error(e) || (e is Prompt && ids is None),
        r matches Ok(w) ==> chosen_ids(*prompter, message@, *storage, ids_view(ids), w@),
        ids is Some ==> r is Ok,
{
    match ids {
        Some(v) => Ok(v),
        None => prompt_for_task_ids(storage, prompter, message),
    }
}

/// What toggling the chosen tasks did, as of some valid date.
pub open spec fn toggle_command_done<S: TaskStorage, P: Prompter>(
    kind: Toggle,
    pr: P,
    message: Seq<char>,
    given: Option<Seq<usize>>,
    a: S,
    b: S,
    p0: Seq<char>,
    p1: Seq<char>,
) -> bool {
    exists|w: Seq<usize>, today: Date|
        #[trigger] toggle_done(kind, a, b, w, today, p0, p1) && chosen_ids(pr, message, a, given, w) && today.valid()
            && (kind == Toggle::Star ==> today == Date::spec_epoch())
}

/// What archiving the chosen tasks did, as of some valid date.
pub open spec fn archive_command_done<S: TaskStorage, P: Prompter>(
    pr: P,
    given: Option<Seq<usize>>,
    a: S,
    b: S,
    p0: Seq<char>,
    p1: Seq<char>,
) -> bool {
    exists|w: Seq<usize>, today: Date|
        #[trigger] archive_done(a, b, w, today, p0, p1) && chosen_ids(pr, archive_question(), a, given, w) && today.valid()
}

/// What copying the chosen tasks did.
pub open spec fn copy_command_done<S: TaskStorage, P: Prompter, C: Copier>(
    pr: P,
    given: Option<Seq<usize>>,
    format: LinkFormat,
    a: S,
    c: C,
    p0: Seq<char>,
    p1: Seq<char>,
) -> bool {
    exists|w: Seq<usize>| #[trigger] copy_done(a, c, w, format, p0, p1) && chosen_ids(pr, copy_question(), a, given, w)
}

fn run_toggle<S: TaskStorage, P: Prompter, W: Printer>(
    kind: Toggle,
    storage: &mut S,
    prompter: &P,
    printer: &mut W,
    ids: Option<Vec<usize>>,
    message: &str,
) -> (r: Result<(), FiniError>)
    ensures
        ready(*old(storage)) && (ids is None ==> always_replies(*prompter)) ==> r is Ok,
        r matches Err(e) ==> read_error(e) || (e is Prompt && ids is None),
        kept_but_active(*old(storage), *final(storage)),
        r is Ok ==> toggle_command_done(kind, *prompter, message@, ids_view(ids), *old(storage), *final(storage), old(printer).printed(), final(printer).printed()),
{
    let ghost given = ids_view(ids);
    let w = ids_or_prompt(storage, prompter, ids, message)?;
    let today = if kind == Toggle::Star { Date::epoch() } else { crate::date::today() };
    toggle_in_store(kind, storage, printer, &w, today)?;
    assert(toggle_done(kind, *old(storage), *storage, w@, today, old(printer).printed(), printer.printed()));
    Ok(())
}

fn run_archive<S: TaskStorage, P: Prompter, W: Printer>(
    storage: &mut S,
    prompter: &P,
    printer: &mut W,
    ids: Option<Vec<usize>>,
) -> (r: Result<(), FiniError>)
    ensures
        ready(*old(storage)) && archive_now(*old(storage)) is Ok && (ids is None ==> always_replies(*prompter)) ==> r is Ok,
        r matches Err(e) ==> read_error(e) || (e is Prompt && ids is None),
        kept_but_active(*old(storage), *final(storage)),
        r is Ok ==> archive_command_done(*prompter, ids_view(ids), *old(storage), *final(storage), old(printer).printed(), final(printer).printed()),
{
    proof {
        reveal_strlit("Select tasks to archive");
        assert("Select tasks to archive"@ =~= archive_question());
    }
    let w = ids_or_prompt(storage, prompter, ids, "Select tasks to archive")?;
    let today = crate::date::today();
    archive_in_store(storage, printer, &w, today)?;
    assert(archive_done(*old(storage), *storage, w@, today, old(printer).printed(), printer.printed()));
    Ok(())
}

fn run_copy<S: TaskStorage, P: Prompter, C: Copier, W: Printer>(
    storage: &S,
    prompter: &P,
    copier: &mut C,
    printer: &mut W,
    ids: Option<Vec<usize>>,
    format: LinkFormat,
) -> (r: Result<(), FiniError>)
    ensures
        ready(*storage) && (ids is None ==> always_replies(*prompter)) && old(copier).dependable() ==> r is Ok,
        old(copier).dependable() ==> final(copier).dependable(),
        r matches Err(e) ==> read_error(e) || e is Clipboard || (e is Prompt && ids is None),
        r is Ok ==> copy_command_done(*prompter, ids_view(ids), format, *storage, *final(copier), old(printer).printed(), final(printer).printed()),
        r is Err ==> final(printer).printed() == old(printer).printed(),
{
    proof {
        reveal_strlit("Select tasks to copy");
        assert("Select tasks to copy"@ =~= copy_question());
    }
    let w = ids_or_prompt(storage, prompter, ids, "Select tasks to copy")?;
    copy(storage, copier, printer, &w, format)?;
    assert(copy_done(*storage, *copier, w@, format, old(printer).printed(), printer.printed()));
    Ok(())
}

/// What copying the done and begun tasks did.
pub open spec fn copy_checked_done<S: TaskStorage, C: Copier>(format: LinkFormat, a: S, c: C, p0: Seq<char>, p1: Seq<char>) -> bool {
    match tasks_now(a) {
        Ok(s) => copy_done(a, c, checked_ids(s), format, p0, p1),
        Err(_) => false,
    }
}

fn run_copy_checked<S: TaskStorage, C: Copier, W: Printer>(
    storage: &S,
    copier: &mut C,
    printer: &mut W,
    format: LinkFormat,
) -> (r: Result<(), FiniError>)
    ensures
        ready(*storage) && old(copier).dependable() ==> r is Ok,
        old(copier).dependable() ==> final(copier).dependable(),
        r matches Err(e) ==> read_error(e) || e is Clipboard,
        r is Ok ==> copy_checked_done(format, *storage, *final(copier), old(printer).printed(), final(printer).printed()),
        r is Err ==> final(printer).printed() == old(printer).printed(),
{
    let w = get_checked_task_ids(storage)?;
    copy(storage, copier, printer, &w, format)?;
    Ok(())
}

pub open spec fn deleted_header() -> Seq<char> {
    seq!['T', 'a', 's', 'k', 's', ' ', 't', 'o', ' ', 'b', 'e', ' ', 'd', 'e', 'l', 'e', 't', 'e', 'd', ':']
}

/// The lines that list the tasks to delete: a header, `  - ` and each title, and a
/// blank line.
pub open spec fn delete_listing(sel: Seq<TaskView>) -> Seq<Seq<char>> {
    seq![deleted_header()] + Seq::new(sel.len(), |k: int| seq![' ', ' ', '-', ' '] + sel[k].title)
        + seq![Seq::<char>::empty()]
}

pub open spec fn delete_question() -> Seq<char> {
    seq!['A', 'r', 'e', ' ', 'y', 'o', 'u', ' ', 's', 'u', 'r', 'e', ' ', 'y', 'o', 'u', ' ', 'w', 'a', 'n', 't', ' ', 't',
        'o', ' ', 'd', 'e', 'l', 'e', 't', 'e', ' ', 't', 'h', 'e', ' ', 's', 'e', 'l', 'e', 'c', 't', 'e', 'd', ' ', 't', 'a',
        's', 'k', 's', '?']
}

/// What deleting the tasks with the ids did: nothing if no task has one of them;
/// otherwise the tasks were listed, and deleted if the user answered yes to the
/// question, nothing more after any other reply.
pub open spec fn delete_shown<S: TaskStorage, P: Prompter>(pr: P, w: Seq<usize>, a: S, b: S, p0: Seq<char>, p1: Seq<char>) -> bool {
    match tasks_now(a) {
        Ok(s) => if with_ids(s, w).len() == 0 {
            b == a && p1 == p0
        } else {
            &&& p1 == p0 + printed_lines(delete_listing(with_ids(s, w)))
            &&& {
                ||| pr.may_confirm(delete_question(), Ok(true)) && delete_done(a, b, w)
                ||| b == a && exists|x: Result<bool, FiniError>|
                    #[trigger] pr.may_confirm(delete_question(), x) && x != Ok::<bool, FiniError>(true)
            }
        },
        Err(_) => false,
    }
}

/// What deleting the chosen tasks did.
pub open spec fn delete_command_done<S: TaskStorage, P: Prompter>(
    pr: P,
    given: Option<Seq<usize>>,
    a: S,
    b: S,
    p0: Seq<char>,
    p1: Seq<char>,
) -> bool {
    exists|w: Seq<usize>| #[trigger] delete_shown(pr, w, a, b, p0, p1) && chosen_ids(pr, delete_many_question(), a, given, w)
}

fn run_delete<S: TaskStorage, P: Prompter, W: Printer>(
    storage: &mut S,
    prompter: &P,
    printer: &mut W,
    ids: Option<Vec<usize>>,
) -> (r: Result<(), FiniError>)
    ensures
        ids is Some && r is Err ==> tasks_now(*old(storage)) is Err || !old(storage).dependable()
            || prompter.may_confirm(delete_question(), Ok(true)),
        ready(*old(storage)) && (ids is None ==> always_replies(*prompter)) ==> r is Ok,
        r matches Err(e) ==> read_error(e) || (e is Prompt && ids is None),
        kept_but_active(*old(storage), *final(storage)),
        r is Ok ==> delete_command_done(*prompter, ids_view(ids), *old(storage), *final(storage), old(printer).printed(), final(printer).printed()),
{
    proof {
        reveal_strlit("Select tasks to delete");
        assert("Select tasks to delete"@ =~= delete_many_question());
    }
    let w = ids_or_prompt(storage, prompter, ids, "Select tasks to delete")?;
    let tasks = storage.read_tasks()?;
    let sel = crate::util::get_tasks_for_ids(tasks, &w);
    if sel.len() == 0 {
        assert(delete_shown(*prompter, w@, *old(storage), *storage, old(printer).printed(), printer.printed()));
        return Ok(());
    }
    let mut lines: Vec<String> = Vec::new();
    let header = lit_string("Tasks to be deleted:");
    proof {
        reveal_strlit("Tasks to be deleted:");
        assert(header@ =~= deleted_header());
    }
    lines.push(header);
    proof {
        assert(texts(lines@) =~= seq![header@]);
        assert(texts(lines@) =~= seq![deleted_header()] + Seq::new(0 as nat, |j: int| seq![' ', ' ', '-', ' '] + views(sel@)[j].title));
    }
    let mut k: usize = 0;
    while k < sel.len()
        invariant
            k <= sel.len(),
            lines.len() == k + 1,
            texts(lines@) == seq![deleted_header()] + Seq::new(k as nat, |j: int| seq![' ', ' ', '-', ' '] + views(sel@)[j].title),
        decreases sel.len() - k,
    {
        let line = joined_message("  - ", sel[k].title.as_str());
        proof {
            reveal_strlit("  - ");
        }
        let ghost before = texts(lines@);
        lines.push(line);
        assert(texts(lines@) =~= before.push(line@));
        assert(line@ == seq![' ', ' ', '-', ' '] + views(sel@)[k as int].title);
        assert(texts(lines@) =~= seq![deleted_header()] + Seq::new((k + 1) as nat, |j: int| seq![' ', ' ', '-', ' '] + views(sel@)[j].title));
        k += 1;
    }
    lines.push(String::new());
    proof {
        reveal_strlit("Tasks to be deleted:");
        assert(texts(lines@) =~= delete_listing(views(sel@)));
    }
    print_all(printer, &lines);
    let answer = prompter.confirm("Are you sure you want to delete the selected tasks?");
    proof {
        reveal_strlit("Are you sure you want to delete the selected tasks?");
        assert("Are you sure you want to delete the selected tasks?"@ =~= delete_question());
    }
    let yes = match answer {
        Ok(b) => b,
        Err(_) => false,
    };
    if yes {
        delete(storage, &w)?;
    }
    assert(delete_shown(*prompter, w@, *old(storage), *storage, old(printer).printed(), printer.printed()));
    Ok(())
}

pub open spec fn clear_question() -> Seq<char> {
    seq!['A', 'r', 'e', ' ', 'y', 'o', 'u', ' ', 's', 'u', 'r', 'e', ' ', 'y', 'o', 'u', ' ', 'w', 'a', 'n', 't', ' ', 't',
        'o', ' ', 'a', 'r', 'c', 'h', 'i', 'v', 'e', ' ', 'a', 'l', 'l', ' ', 'c', 'o', 'm', 'p', 'l', 'e', 't', 'e', ' ', 't',
        'a', 's', 'k', 's', '?']
}

/// What clearing did: the done tasks were archived if the user answered yes to the
/// question, and nothing after any other reply (a no, or a failed question).
pub open spec fn clear_command_done<S: TaskStorage, P: Prompter>(pr: P, a: S, b: S, p0: Seq<char>, p1: Seq<char>) -> bool {
    ||| pr.may_confirm(clear_question(), Ok(true)) && clear_done(a, b, p0, p1)
    ||| b == a && p1 == p0 && exists|x: Result<bool, FiniError>|
        #[trigger] pr.may_confirm(clear_question(), x) && x != Ok::<bool, FiniError>(true)
}

fn run_clear<S: TaskStorage, P: Prompter, W: Printer>(
    storage: &mut S,
    prompter: &P,
    printer: &mut W,
) -> (r: Result<(), FiniError>)
    ensures
        r is Err ==> prompter.may_confirm(clear_question(), Ok(true)),
        ready_with(*old(storage), |s: Seq<TaskView>| max_id(s) + s.len() + 2 <= usize::MAX)
            && archive_now(*old(storage)) is Ok ==> r is Ok,
        r matches Err(e) ==> read_error(e),
        kept_but_active(*old(storage), *final(storage)),
        r is Ok ==> clear_command_done(*prompter, *old(storage), *final(storage), old(printer).printed(), final(printer).printed()),
{
    let answer = prompter.confirm("Are you sure you want to archive all complete tasks?");
    proof {
        reveal_strlit("Are you sure you want to archive all complete tasks?");
        assert("Are you sure you want to archive all complete tasks?"@ =~= clear_question());
    }
    let yes = match answer {
        Ok(b) => b,
        Err(_) => false,
    };
    if yes {
        clear(storage, printer)?;
    }
    Ok(())
}

pub open spec fn empty_title_text() -> Seq<char> {
    seq!['T', 'h', 'e', ' ', 't', 'i', 't', 'l', 'e', ' ', 'o', 'f', ' ', 't', 'h', 'e', ' ', 't', 'a', 's', 'k', ' ',
        'c', 'a', 'n', 'n', 'o', 't', ' ', 'b', 'e', ' ', 'e', 'm', 'p', 't', 'y', '.']
}

pub open spec fn title_question() -> Seq<char> {
    seq!['E', 'n', 't', 'e', 'r', ' ', 't', 'a', 's', 'k', ' ', 't', 'i', 't', 'l', 'e', ':']
}

pub open spec fn link_question() -> Seq<char> {
    seq!['(', 'O', 'p', 't', 'i', 'o', 'n', 'a', 'l', ')', ' ', 'E', 'n', 't', 'e', 'r', ' ', 'l', 'i', 'n', 'k', ':']
}

/// The link that a reply to the question for a link gives: none for an empty
/// answer or a failed question.
pub open spec fn link_of_reply(x: Result<Seq<char>, FiniError>) -> Option<Seq<char>> {
    match x {
        Ok(l) => if l.len() == 0 { None } else { Some(l) },
        Err(_) => None,
    }
}

/// What adding a task with the title `t` and the link `l` did: nothing but a
/// message for an empty title; otherwise the task was added.
pub open spec fn add_outcome<S: TaskStorage>(
    t: Seq<char>,
    l: Option<Seq<char>>,
    a: S,
    b: S,
    p0: Seq<char>,
    p1: Seq<char>,
) -> bool {
    if t.len() == 0 {
        b == a && p1 == p0 + empty_title_text() + seq!['\n']
    } else {
        match tasks_now(a) {
            Ok(s) => add_done(a, b, p0, p1, next_id_of(s), t, l),
            Err(_) => false,
        }
    }
}

/// What the command `Add` did: the title given, or the answer to `Enter task
/// title:`; for a title that is not empty, the link given, or what the reply to the
/// question for a link gives (an empty answer, or a failed question, giving none).
pub open spec fn add_command_done<S: TaskStorage, P: Prompter>(
    pr: P,
    title: Option<Seq<char>>,
    link: Option<Seq<char>>,
    a: S,
    b: S,
    p0: Seq<char>,
    p1: Seq<char>,
) -> bool {
    exists|t: Seq<char>, l: Option<Seq<char>>|
        #[trigger] add_outcome(t, l, a, b, p0, p1) && match title {
            Some(g) => t == g,
            None => pr.may_give_text(title_question(), Ok(t)),
        } && match link {
            Some(g) => l == Some(g),
            None => t.len() > 0 ==> exists|x: Result<Seq<char>, FiniError>|
                #[trigger] pr.may_give_text(link_question(), x) && l == link_of_reply(x),
        }
}

fn run_add<S: TaskStorage, P: Prompter, W: Printer>(
    storage: &mut S,
    prompter: &P,
    printer: &mut W,
    title: Option<String>,
    link: Option<String>,
) -> (r: Result<(), FiniError>)
    ensures
        (title matches Some(t) && t@.len() == 0) ==> r is Ok,
        r matches Err(e) ==> add_fails_as(*prompter, link_view(title), e),
        ready_with(*old(storage), |s: Seq<TaskView>| max_id(s) < usize::MAX) && (title is None ==> always_replies(*prompter)) ==> r is Ok,
        r matches Err(e) ==> read_error(e) || (e is Prompt && title is None),
        kept_but_active(*old(storage), *final(storage)),
        r is Ok ==> add_command_done(*prompter, link_view(title), link_view(link), *old(storage), *final(storage), old(printer).printed(), final(printer).printed()),
{
    let ghost given = link_view(title);
    let t = match title {
        Some(c) => c,
        None => {
            let answer = prompter.text("Enter task title:");
            proof {
                reveal_strlit("Enter task title:");
                assert("Enter task title:"@ =~= title_question());
            }
            answer?
        },
    };
    assert(title is None ==> prompter.may_give_text(title_question(), Ok(t@)));
    if t.as_str().is_empty() {
        printer.print("The title of the task cannot be empty.");
        proof {
            reveal_strlit("The title of the task cannot be empty.");
        }
        assert(printer.printed() =~= old(printer).printed() + empty_title_text() + seq!['\n']);
        assert(add_outcome(t@, link_view(link), *old(storage), *storage, old(printer).printed(), printer.printed()));
        return Ok(());
    }
    let ghost mut reply: Result<Seq<char>, FiniError> = Ok(Seq::empty());
    let l = match link {
        Some(c) => Some(c),
        None => {
            let answer = prompter.text("(Optional) Enter link:");
            proof {
                reveal_strlit("(Optional) Enter link:");
                assert("(Optional) Enter link:"@ =~= link_question());
                reply = text_reply(answer);
            }
            match answer {
                Ok(x) => if x.as_str().is_empty() { None } else { Some(x) },
                Err(_) => None,
            }
        },
    };
    let ghost lv = link_view(l);
    let ghost tv = t@;
    assert(title_taken(*prompter, given, tv) && tv.len() > 0);
    assert(link is None ==> prompter.may_give_text(link_question(), reply) && lv == link_of_reply(reply));
    crate::util::add(storage, printer, t, l)?;
    assert(add_outcome(tv, lv, *old(storage), *storage, old(printer).printed(), printer.printed()));
    Ok(())
}

pub open spec fn no_task_selected_text() -> Seq<char> {
    seq!['N', 'o', ' ', 't', 'a', 's', 'k', ' ', 's', 'e', 'l', 'e', 'c', 't', 'e', 'd']
}

pub open spec fn no_link_text() -> Seq<char> {
    seq!['T', 'h', 'a', 't', ' ', 't', 'a', 's', 'k', ' ', 'd', 'o', 'e', 's', ' ', 'n', 'o', 't', ' ', 'h', 'a', 'v', 'e',
        ' ', 'a', ' ', 'l', 'i', 'n', 'k']
}

/// The id the command went on with: the one given, or the user's choice, asked with
/// the message, among the tasks the list shows (`None` if the user cancelled).
pub open spec fn chosen_id<S: TaskStorage, P: Prompter>(pr: P, message: Seq<char>, st: S, given: Option<usize>, chosen: Option<usize>) -> bool {
    match given {
        Some(i) => chosen == Some(i),
        None => picked_one_from(pr, message, st, chosen) && match chosen {
            Some(i) => shown_id(st, i),
            None => true,
        },
    }
}

/// The id given, or the user's choice among the tasks the list shows.
fn id_or_prompt<S: TaskStorage, P: Prompter>(
    storage: &S,
    prompter: &P,
    id: Option<usize>,
    message: &str,
) -> (r: Result<Option<usize>, FiniError>)
    ensures
        ready(*storage) && (id is None ==> always_replies(*prompter)) ==> r is Ok,
        r matches Err(e) ==> read_error(e) || (e is Prompt && id is None),
        r matches Ok(c) ==> chosen_id(*prompter, message@, *storage, id, c),
        id is Some ==> r is Ok,
        id is None && tasks_now(*storage) is Err ==> r is Err,
{
    match id {
        Some(i) => Ok(Some(i)),
        None => prompt_for_task_id(storage, prompter, message),
    }
}

/// What opening the chosen task did (`opened` the link handed to the browser, if
/// any): a message that none was chosen, or that it has no link; otherwise its link
/// was handed to the browser and nothing printed.
pub open spec fn open_outcome<S: TaskStorage>(chosen: Option<usize>, a: S, p0: Seq<char>, p1: Seq<char>, opened: Option<Seq<char>>) -> bool {
    match chosen {
        None => p1 == p0 + no_task_selected_text() + seq!['\n'] && opened is None,
        Some(i) => exists|t: TaskView|
            #[trigger] task_for_id(a, i as nat, t) && if t.link is None {
                p1 == p0 + no_link_text() + seq!['\n'] && opened is None
            } else {
                p1 == p0 && opened == t.link
            },
    }
}

/// What the command `Open` did; the store is as it was.
pub open spec fn open_command_done<S: TaskStorage, P: Prompter>(
    pr: P,
    given: Option<usize>,
    a: S,
    p0: Seq<char>,
    p1: Seq<char>,
    opened: Option<Seq<char>>,
) -> bool {
    exists|chosen: Option<usize>|
        #[trigger] open_outcome(chosen, a, p0, p1, opened) && chosen_id(pr, open_question(), a, given, chosen)
}

/// Opens the link in the web browser with `webbrowser::open`, and gives the link
/// back once it is opened. Whether a browser opened depends on the machine, so
/// nothing is claimed of the outcome; a failure is reported as `FiniError::Browser`
/// with the crate's message.
#[verifier::external_body]
fn open_in_browser(link: String) -> (r: Result<String, FiniError>)
    ensures
        r matches Ok(l) ==> l@ == link@,
        r matches Err(e) ==> e is Browser,
{
    match webbrowser::open(link.as_str()) {
        Ok(()) => Ok(link),
        Err(e) => Err(FiniError::Browser(e.to_string())),
    }
}

fn run_open<S: TaskStorage, P: Prompter, W: Printer>(
    storage: &S,
    prompter: &P,
    printer: &mut W,
    id: Option<usize>,
) -> (r: Result<Option<String>, FiniError>)
    ensures
        r matches Err(e) ==> read_error(e) || e is Browser || (e is TaskNotFound && id is Some) || (e is Prompt && id is None),
        r matches Ok(o) ==> open_command_done(*prompter, id, *storage, old(printer).printed(), final(printer).printed(), link_view(o)),
        ready(*storage) && (id is None ==> always_replies(*prompter)) && (id matches Some(i) ==> !no_task_with_id(*storage, i as nat))
            ==> r is Ok || (r matches Err(e) && e is Browser),
{
    proof {
        reveal_strlit("Select task to open");
        assert("Select task to open"@ =~= open_question());
    }
    let chosen = id_or_prompt(storage, prompter, id, "Select task to open")?;
    let i = match chosen {
        None => {
            printer.print("No task selected");
            proof {
                reveal_strlit("No task selected");
            }
            assert(printer.printed() =~= old(printer).printed() + no_task_selected_text() + seq!['\n']);
            assert(open_outcome(chosen, *storage, old(printer).printed(), printer.printed(), None));
            return Ok(None);
        },
        Some(i) => i,
    };
    proof {
        if id is None && shown_id(*storage, i) {
            lemma_shown_is_there(*storage, i);
        }
    }
    let task = get_task_for_id(storage, i)?;
    match task.link {
        None => {
            printer.print("That task does not have a link");
            proof {
                reveal_strlit("That task does not have a link");
            }
            assert(printer.printed() =~= old(printer).printed() + no_link_text() + seq!['\n']);
            assert(open_outcome(chosen, *storage, old(printer).printed(), printer.printed(), None));
            Ok(None)
        },
        Some(link) => {
            let ghost lv = link@;
            let opened = open_in_browser(link)?;
            assert(open_outcome(chosen, *storage, old(printer).printed(), printer.printed(), Some(lv)));
            Ok(Some(opened))
        },
    }
}

/// What editing the chosen task did: nothing but a message if none was chosen.
pub open spec fn edit_outcome<S: TaskStorage, P: Prompter>(pr: P, chosen: Option<usize>, a: S, b: S, p0: Seq<char>, p1: Seq<char>) -> bool {
    match chosen {
        None => b == a && p1 == p0 + no_task_selected_text() + seq!['\n'],
        Some(i) => exists|w0: Seq<char>, w1: Seq<char>| #[trigger] edit_task_done(pr, a, b, i as nat, p0, p1, w0, w1),
    }
}

/// What the command `Edit` did.
pub open spec fn edit_command_done<S: TaskStorage, P: Prompter>(pr: P, given: Option<usize>, a: S, b: S, p0: Seq<char>, p1: Seq<char>) -> bool {
    exists|chosen: Option<usize>| #[trigger] edit_outcome(pr, chosen, a, b, p0, p1) && chosen_id(pr, edit_one_question(), a, given, chosen)
}

/// A task the list shows is a task of the list.
proof fn lemma_shown_is_there<S: TaskStorage>(st: S, id: usize)
    requires
        shown_id(st, id),
    ensures
        !no_task_with_id(st, id as nat),
{
    let s = tasks_now(st)->Ok_0;
    let vis = crate::util::visible(s);
    let vs = crate::util::visible_sorted(s);
    let i = choose|i: int| 0 <= i < vs.len() && #[trigger] vs[i].id == id as nat;
    crate::sort::lemma_stable_sort_members(crate::sort::SortKey::DoneThenStar, vis);
    assert(vs.contains(vs[i]));
    let j = choose|j: int| 0 <= j < vis.len() && vis[j] == vs[i];
    crate::util::lemma_filter_members(s, |t: TaskView| crate::util::is_visible(t));
    let k = choose|k: int| 0 <= k < s.len() && s[k] == vis[j];
    crate::util::lemma_find_index(s, id as nat);
}

fn run_edit<S: TaskStorage, P: Prompter, W: Printer>(
    storage: &mut S,
    prompter: &P,
    printer: &mut W,
    id: Option<usize>,
) -> (r: Result<(), FiniError>)
    ensures
        ready(*old(storage)) && always_replies(*prompter) && (id matches Some(i) ==> !no_task_with_id(*old(storage), i as nat))
            ==> r is Ok || tasks_now(*final(storage)) is Err,
        r matches Err(e) ==> read_error(e) || e is NoTaskToEdit || e is Prompt,
        kept_but_active(*old(storage), *final(storage)),
        r is Ok ==> edit_command_done(*prompter, id, *old(storage), *final(storage), old(printer).printed(), final(printer).printed()),
{
    proof {
        reveal_strlit("Select task to edit");
        assert("Select task to edit"@ =~= edit_one_question());
    }
    let chosen = id_or_prompt(storage, prompter, id, "Select task to edit")?;
    match chosen {
        None => {
            printer.print("No task selected");
            proof {
                reveal_strlit("No task selected");
            }
            assert(printer.printed() =~= old(printer).printed() + no_task_selected_text() + seq!['\n']);
        },
        Some(i) => {
            proof {
                if id is None && shown_id(*storage, i) {
                    lemma_shown_is_there(*storage, i);
                }
            }
            edit_task(storage, prompter, printer, i)?;
        },
    }
    assert(edit_outcome(*prompter, chosen, *old(storage), *storage, old(printer).printed(), printer.printed()));
    Ok(())
}

/// The statuses of the tasks that the listings by date take: done, in progress and
/// archived.
pub open spec fn dated_statuses() -> Seq<Status> {
    seq![Status::Done, Status::InProgress, Status::Archived]
}

/// The ids of the tasks dated from the date written `d` on (and up to the date
/// written `e`, if given), with the statuses the listings take; `None` if a text is
/// no date.
pub open spec fn range_ids(all: Seq<TaskView>, d: Seq<char>, e: Option<Seq<char>>) -> Option<Seq<usize>> {
    match date_of_text(d) {
        None => None,
        Some(from) => match e {
            None => Some(ids_on_or_after(all, from, dated_statuses())),
            Some(et) => match date_of_text(et) {
                None => None,
                Some(to) => Some(ids_between(all, from, to, dated_statuses())),
            },
        },
    }
}

/// `out` is the listing by date, in the link format, of the active board's tasks and
/// archived tasks (in that order) whose ids are among those of the tasks dated in
/// the range.
pub open spec fn range_listing<S: TaskStorage>(
    a: S,
    d: Seq<char>,
    e: Option<Seq<char>>,
    format: LinkFormat,
    out: Seq<char>,
) -> bool {
    match (tasks_now(a), archive_now(a)) {
        (Ok(s), Ok(arch)) => match range_ids(s + arch, d, e) {
            Some(ids) => listing_of(with_ids(s + arch, ids), format, out),
            None => false,
        },
        _ => false,
    }
}

/// Every task has a date.
fn all_have_dates(items: &Vec<TaskItem>) -> (r: bool)
    ensures
        r == forall|k: int| 0 <= k < items.len() ==> (#[trigger] items@[k]).active_date is Some,
{
    let mut k: usize = 0;
    while k < items.len()
        invariant
            k <= items.len(),
            forall|j: int| 0 <= j < k ==> (#[trigger] items@[j]).active_date is Some,
        decreases items.len() - k,
    {
        if items[k].active_date.is_none() {
            return false;
        }
        k += 1;
    }
    true
}

/// The listing by date of the active board's tasks and archived tasks dated from
/// the date written `d` (up to the one written `e`, if given). Fails if a text is no
/// date.
fn range_text<S: TaskStorage>(
    storage: &S,
    d: &str,
    e: Option<&str>,
    format: LinkFormat,
) -> (r: Result<String, FiniError>)
    ensures
        storage.dependable() && range_listable(*storage, d@, match e { Some(x) => Some(x@), None => None }) ==> r is Ok,
        r matches Err(e) ==> read_error(e),
        r matches Ok(out) ==> range_listing(*storage, d@, match e { Some(x) => Some(x@), None => None }, format, out@),
{
    let mut tasks = storage.read_tasks()?;
    let mut arch = storage.read_archived()?;
    let ghost s = views(tasks@);
    let ghost av = views(arch@);
    tasks.append(&mut arch);
    assert(views(tasks@) =~= s + av);
    let statuses = vec![Status::Done, Status::InProgress, Status::Archived];
    assert(statuses@ =~= dated_statuses());
    let ids = match e {
        None => get_task_ids_after_date(&tasks, d, &statuses)?,
        Some(et) => get_task_ids_between(&tasks, d, et, &statuses)?,
    };
    let ghost all = views(tasks@);
    let sel = get_tasks_for_ids(tasks, &ids);
    if !all_have_dates(&sel) {
        proof {
            let ev = match e { Some(x) => Some(x@), None => None };
            if storage.dependable() && range_listable(*storage, d@, ev) {
                assert(range_ids(s + av, d@, ev) == Some(ids@));
                let k = choose|k: int| 0 <= k < sel@.len() && (#[trigger] sel@[k]).active_date is None;
                assert(views(sel@)[k] == sel@[k]@);
                assert(with_ids(s + av, ids@)[k].active_date is None);
            }
        }
        return Err(FiniError::Store(lit_string("a task without a date cannot be listed by date")));
    }
    proof {
        crate::util::lemma_filter_members(all, |t: TaskView| crate::util::id_in(ids@, t.id));
        assert forall|k: int| 0 <= k < views(sel@).len() implies crate::markdown::dated_ok(#[trigger] views(sel@)[k]) by {
            let j = choose|j: int| 0 <= j < all.len() && all[j] == views(sel@)[k];
            assert(sel@[k].active_date is Some);
            if j < s.len() {
                assert(all[j] == s[j]);
                assert(crate::markdown::date_ok(s[j]));
            } else {
                assert(all[j] == av[j - s.len()]);
                assert(crate::markdown::dated_ok(av[j - s.len()]));
            }
        }
    }
    let ghost sv = views(sel@);
    let out = archived_tasks_as_markdown(sel, format);
    proof {
        let texts = choose|texts: Seq<Seq<char>>| #[trigger] crate::markdown::archive_text_is(
            crate::sort::stable_sort(crate::sort::SortKey::ByDate, sv), format, texts, out@);
        assert(crate::markdown::archive_text_is(crate::sort::stable_sort(crate::sort::SortKey::ByDate, sv), format, texts, out@));
        assert(listing_of(sv, format, out@));
    }
    Ok(out)
}

pub open spec fn copied_after_prefix() -> Seq<char> {
    seq!['C', 'o', 'p', 'i', 'e', 'd', ' ', 't', 'a', 's', 'k', 's', ' ', 'a', 's', ' ', 'M', 'a', 'r', 'k', 'd', 'o', 'w',
        'n', ' ', 'b', 'y', ' ', 'd', 'a', 't', 'e', ' ', 's', 't', 'a', 'r', 't', 'i', 'n', 'g', ' ', 'a', 't', ' ']
}

/// What copying the tasks dated from `d` on did: the listing was copied as plain
/// text, and a line saying so printed.
pub open spec fn copied_after<S: TaskStorage, C: Copier>(
    d: Seq<char>,
    format: LinkFormat,
    a: S,
    c: C,
    p0: Seq<char>,
    p1: Seq<char>,
) -> bool {
    exists|out: Seq<char>|
        #[trigger] range_listing(a, d, None, format, out) && c.holds(crate::copier::PayloadView::Text(out))
            && p1 == p0 + copied_after_prefix() + d + seq!['\n']
}

pub open spec fn copy_after_question() -> Seq<char> {
    seq!['S', 'e', 'l', 'e', 'c', 't', ' ', 'd', 'a', 't', 'e', ' ', 't', 'o', ' ', 's', 't', 'a', 'r', 't', ' ', 'c', 'o', 'p', 'y', 'i', 'n', 'g', ' ', 'b', 'e', 'g', 'u', 'n', ' ', 'a', 'n', 'd', ' ', 'c', 'o', 'm', 'p', 'l', 'e', 't', 'e', 'd', ' ', 't', 'a', 's', 'k', 's', ':']
}

pub open spec fn list_after_question() -> Seq<char> {
    seq!['S', 'e', 'l', 'e', 'c', 't', ' ', 'f', 'i', 'r', 's', 't', ' ', 'd', 'a', 't', 'e', ' ', 't', 'o', ' ', 's', 't', 'a', 'r', 't', ' ', 'l', 'i', 's', 't', 'i', 'n', 'g', ' ', 'b', 'e', 'g', 'u', 'n', ' ', 'a', 'n', 'd', ' ', 'c', 'o', 'm', 'p', 'l', 'e', 't', 'e', 'd', ' ', 't', 'a', 's', 'k', 's', ':']
}

pub open spec fn first_date_question() -> Seq<char> {
    seq!['S', 'e', 'l', 'e', 'c', 't', ' ', 'f', 'i', 'r', 's', 't', ' ', 'd', 'a', 't', 'e', ' ', 't', 'o', ' ', 's', 'h', 'o', 'w', ' ', 'b', 'e', 'g', 'u', 'n', ' ', 'a', 'n', 'd', ' ', 'c', 'o', 'm', 'p', 'l', 'e', 't', 'e', 'd', ' ', 't', 'a', 's', 'k', 's', ':']
}

pub open spec fn last_date_question() -> Seq<char> {
    seq!['S', 'e', 'l', 'e', 'c', 't', ' ', 'l', 'a', 's', 't', ' ', 'd', 'a', 't', 'e', ' ', 't', 'o', ' ', 's', 'h', 'o', 'w', ' ', 'b', 'e', 'g', 'u', 'n', ' ', 'a', 'n', 'd', ' ', 'c', 'o', 'm', 'p', 'l', 'e', 't', 'e', 'd', ' ', 't', 'a', 's', 'k', 's', ':']
}

/// `d` is the date given, or else the prompter's answer when asked with the message.
pub open spec fn given_or_answered<P: Prompter>(pr: P, message: Seq<char>, given: Option<Seq<char>>, d: Seq<char>) -> bool {
    match given {
        Some(g) => d == g,
        None => pr.may_give_date(message, Ok(d)),
    }
}

/// What the command `CopyAfterDate` did: the date given, or asked for.
pub open spec fn copy_after_command_done<S: TaskStorage, P: Prompter, C: Copier>(
    pr: P,
    given: Option<Seq<char>>,
    format: LinkFormat,
    a: S,
    c: C,
    p0: Seq<char>,
    p1: Seq<char>,
) -> bool {
    exists|d: Seq<char>| #[trigger] copied_after(d, format, a, c, p0, p1) && given_or_answered(pr, copy_after_question(), given, d)
}

/// The date given, or one asked for.
fn date_or_prompt<P: Prompter>(prompter: &P, date: Option<String>, message: &str) -> (r: Result<String, FiniError>)
    ensures
        r matches Err(e) ==> e is Prompt && date is None,
        r matches Ok(d) ==> given_or_answered(*prompter, message@, link_view(date), d@),
{
    match date {
        Some(d) => Ok(d),
        None => prompter.select_date(message),
    }
}

fn run_copy_after<S: TaskStorage, P: Prompter, C: Copier, W: Printer>(
    storage: &S,
    prompter: &P,
    copier: &mut C,
    printer: &mut W,
    date: Option<String>,
    format: LinkFormat,
) -> (r: Result<(), FiniError>)
    ensures
        storage.dependable() && old(copier).dependable() && (date matches Some(d) && range_listable(*storage, d@, None)) ==> r is Ok,
        old(copier).dependable() ==> final(copier).dependable(),
        r matches Err(e) ==> read_error(e) || e is Clipboard || (e is Prompt && date is None),
        r is Ok ==> copy_after_command_done(*prompter, link_view(date), format, *storage, *final(copier), old(printer).printed(), final(printer).printed()),
        r is Err ==> final(printer).printed() == old(printer).printed(),
{
    proof {
        reveal_strlit("Select date to start copying begun and completed tasks:");
        assert("Select date to start copying begun and completed tasks:"@ =~= copy_after_question());
    }
    let d = date_or_prompt(prompter, date, "Select date to start copying begun and completed tasks:")?;
    let out = range_text(storage, d.as_str(), None, format)?;
    let ghost ov = out@;
    let payload = crate::copier::CopyPayload::Text(crate::copier::TextPayload(out));
    copier.copy(&payload)?;
    let m = joined_message("Copied tasks as Markdown by date starting at ", d.as_str());
    printer.print(m.as_str());
    proof {
        reveal_strlit("Copied tasks as Markdown by date starting at ");
    }
    assert(printer.printed() =~= old(printer).printed() + copied_after_prefix() + d@ + seq!['\n']);
    assert(copied_after(d@, format, *storage, *copier, old(printer).printed(), printer.printed()));
    Ok(())
}

/// What listing the tasks dated in a range printed: the listing and a line break.
pub open spec fn listed_range<S: TaskStorage>(
    d: Seq<char>,
    e: Option<Seq<char>>,
    format: LinkFormat,
    a: S,
    p0: Seq<char>,
    p1: Seq<char>,
) -> bool {
    exists|out: Seq<char>| #[trigger] range_listing(a, d, e, format, out) && p1 == p0 + out + seq!['\n']
}

/// What the commands `ListAfterDate` and `ListBetween` did: the dates given, or
/// asked for.
pub open spec fn list_range_command_done<S: TaskStorage, P: Prompter>(
    pr: P,
    given_a: Option<Seq<char>>,
    given_b: Option<Option<Seq<char>>>,
    format: LinkFormat,
    a: S,
    p0: Seq<char>,
    p1: Seq<char>,
) -> bool {
    exists|d: Seq<char>, e: Option<Seq<char>>|
        #[trigger] listed_range(d, e, format, a, p0, p1) && match given_b {
            None => e is None && given_or_answered(pr, list_after_question(), given_a, d),
            Some(gb) => e is Some && given_or_answered(pr, first_date_question(), given_a, d)
                && given_or_answered(pr, last_date_question(), gb, e->0),
        }
}

fn run_list_range<S: TaskStorage, P: Prompter, W: Printer>(
    storage: &S,
    prompter: &P,
    printer: &mut W,
    date_a: Option<String>,
    date_b: Option<Option<String>>,
    format: LinkFormat,
) -> (r: Result<(), FiniError>)
    ensures
        storage.dependable() && (date_a matches Some(d) && match date_b { None => range_listable(*storage, d@, None), Some(b) => b matches Some(e) && range_listable(*storage, d@, Some(e@)) }) ==> r is Ok,
        r matches Err(e) ==> read_error(e) || (e is Prompt && (date_a is None || (date_b is Some && date_b->0 is None))),
        r is Ok ==> list_range_command_done(*prompter, link_view(date_a), match date_b {
            None => None,
            Some(x) => Some(link_view(x)),
        }, format, *storage, old(printer).printed(), final(printer).printed()),
        r is Err ==> final(printer).printed() == old(printer).printed(),
{
    let out;
    let ghost dv;
    let ghost ev: Option<Seq<char>>;
    match date_b {
        None => {
            proof {
                reveal_strlit("Select first date to start listing begun and completed tasks:");
                assert("Select first date to start listing begun and completed tasks:"@ =~= list_after_question());
            }
            let d = date_or_prompt(prompter, date_a, "Select first date to start listing begun and completed tasks:")?;
            out = range_text(storage, d.as_str(), None, format)?;
            proof {
                dv = d@;
                ev = None;
            }
        },
        Some(b) => {
            proof {
                reveal_strlit("Select first date to show begun and completed tasks:");
                reveal_strlit("Select last date to show begun and completed tasks:");
                assert("Select first date to show begun and completed tasks:"@ =~= first_date_question());
                assert("Select last date to show begun and completed tasks:"@ =~= last_date_question());
            }
            let d = date_or_prompt(prompter, date_a, "Select first date to show begun and completed tasks:")?;
            let e = date_or_prompt(prompter, b, "Select last date to show begun and completed tasks:")?;
            out = range_text(storage, d.as_str(), Some(e.as_str()), format)?;
            proof {
                dv = d@;
                ev = Some(e@);
            }
        },
    }
    printer.print(out.as_str());
    assert(listed_range(dv, ev, format, *storage, old(printer).printed(), printer.printed()));
    Ok(())
}

/// The lines that list the boards: `* ` before the active one, two spaces before
/// any other.
pub open spec fn board_lines(names: Seq<Seq<char>>, active: Seq<char>) -> Seq<Seq<char>> {
    Seq::new(
        names.len(),
        |k: int| if names[k] == active { seq!['*', ' '] + names[k] } else { seq![' ', ' '] + names[k] },
    )
}

fn run_boards<S: TaskStorage, W: Printer>(storage: &S, printer: &mut W) -> (r: Result<(), FiniError>)
    ensures
        storage.dependable() ==> r is Ok,
        r matches Err(e) ==> e is Store,
        r is Ok ==> final(printer).printed() == old(printer).printed() + printed_lines(board_lines(storage.boards(), storage.board())),
        r is Err ==> final(printer).printed() == old(printer).printed(),
{
    let active = storage.active_board();
    let boards = storage.list_boards()?;
    let mut lines: Vec<String> = Vec::new();
    let mut k: usize = 0;
    proof {
        reveal_strlit("* ");
        reveal_strlit("  ");
    }
    while k < boards.len()
        invariant
            k <= boards.len(),
            active@ == storage.board(),
            texts(boards@) == storage.boards(),
            texts(lines@) == board_lines(storage.boards(), storage.board()).take(k as int),
        decreases boards.len() - k,
    {
        let line = if boards[k] == active {
            joined_message("* ", boards[k].as_str())
        } else {
            joined_message("  ", boards[k].as_str())
        };
        proof {
            reveal_strlit("* ");
            reveal_strlit("  ");
        }
        let ghost before = texts(lines@);
        lines.push(line);
        assert(texts(lines@) =~= before.push(line@));
        assert(texts(boards@)[k as int] == boards@[k as int]@);
        assert(storage.boards()[k as int] == boards@[k as int]@);
        assert(line@ == board_lines(storage.boards(), storage.board())[k as int]);
        assert(texts(lines@) =~= board_lines(storage.boards(), storage.board()).take(k + 1));
        k += 1;
    }
    assert(board_lines(storage.boards(), storage.board()).take(k as int) =~= board_lines(storage.boards(), storage.board()));
    print_all(printer, &lines);
    Ok(())
}

pub open spec fn no_path_text() -> Seq<char> {
    seq!['N', 'o', ' ', 'p', 'a', 't', 'h', ' ', 'a', 'v', 'a', 'i', 'l', 'a', 'b', 'l', 'e']
}

/// What printing the active board's path printed.
pub open spec fn path_shown<S: TaskStorage>(a: S, p0: Seq<char>, p1: Seq<char>) -> bool {
    match a.path() {
        None => p1 == p0 + no_path_text() + seq!['\n'],
        Some(path) => p1 == p0 + path + seq!['\n'],
    }
}

fn run_board_path<S: TaskStorage, W: Printer>(storage: &S, printer: &mut W)
    ensures
        path_shown(*storage, old(printer).printed(), final(printer).printed()),
{
    match storage.active_board_path() {
        None => {
            printer.print("No path available");
            proof {
                reveal_strlit("No path available");
            }
            assert(printer.printed() =~= old(printer).printed() + no_path_text() + seq!['\n']);
        },
        Some(path) => {
            printer.print(path.as_str());
        },
    }
}

/// A name a board can take: not empty, without `/` or `\`.
pub open spec fn valid_board_name(n: Seq<char>) -> bool {
    n.len() > 0 && lacks(n, '/') && lacks(n, '\\')
}

pub open spec fn invalid_name_prefix() -> Seq<char> {
    seq!['I', 'n', 'v', 'a', 'l', 'i', 'd', ' ', 'b', 'o', 'a', 'r', 'd', ' ', 'n', 'a', 'm', 'e', ':', ' ', '\'']
}

pub open spec fn invalid_name_text() -> Seq<char> {
    seq!['I', 'n', 'v', 'a', 'l', 'i', 'd', ' ', 'b', 'o', 'a', 'r', 'd', ' ', 'n', 'a', 'm', 'e', '.']
}

pub open spec fn switched_prefix() -> Seq<char> {
    seq!['S', 'w', 'i', 't', 'c', 'h', 'e', 'd', ' ', 't', 'o', ' ', 'b', 'o', 'a', 'r', 'd', ' ', '\'']
}

/// What switching to the board `n` did: nothing if it is the active one (one of the
/// boards); otherwise it became the active one (added if new, no board's tasks
/// changed) and a line said so.
pub open spec fn switched<S: TaskStorage>(a: S, b: S, n: Seq<char>, p0: Seq<char>, p1: Seq<char>) -> bool {
    if n == a.board() {
        b == a && p1 == p0 && a.boards().contains(n)
    } else {
        &&& b.board() == n
        &&& b.boards().contains(n)
        &&& b.boards().to_set() == a.boards().to_set().insert(n)
        &&& same_contents(a, b)
        &&& p1 == p0 + switched_prefix() + n + seq!['\'', '.', '\n']
    }
}

/// What the command `Use` did with a name given: the name trimmed, refused with a
/// message if it is no valid board name, else switched to.
pub open spec fn use_named<S: TaskStorage>(n: Seq<char>, a: S, b: S, p0: Seq<char>, p1: Seq<char>) -> bool {
    let t = trim(n);
    if !valid_board_name(t) {
        b == a && p1 == p0 + invalid_name_prefix() + t + seq!['\'', '\n']
    } else {
        switched(a, b, t, p0, p1)
    }
}

/// What the command `Use` did without a name: nothing if the user cancelled, a
/// message if the new name was no valid one, else a switch to a board of the store
/// or to one of a valid new name.
pub open spec fn use_chosen<S: TaskStorage>(a: S, b: S, p0: Seq<char>, p1: Seq<char>) -> bool {
    ||| (b == a && p1 == p0)
    ||| (b == a && p1 == p0 + invalid_name_text() + seq!['\n'])
    ||| exists|n: Seq<char>|
        #[trigger] switched(a, b, n, p0, p1) && (a.boards().contains(n) || valid_board_name(n))
}

/// Whether the character stands in the text.
fn has_char(s: &str, c: char) -> (r: bool)
    ensures
        r == !lacks(s@, c),
{
    let cs = chars_of(s);
    let mut k: usize = 0;
    while k < cs.len()
        invariant
            k <= cs.len(),
            cs@ == s@,
            forall|j: int| 0 <= j < k ==> cs@[j] != c,
        decreases cs.len() - k,
    {
        if cs[k] == c {
            return true;
        }
        k += 1;
    }
    false
}

/// Whether the name is one a board can take.
fn is_valid_board_name(n: &str) -> (r: bool)
    ensures
        r == valid_board_name(n@),
{
    !n.is_empty() && !has_char(n, '/') && !has_char(n, '\\')
}

/// Switches to the board `n` unless it is the active one.
fn switch_to<S: TaskStorage, W: Printer>(storage: &mut S, printer: &mut W, n: &str) -> (r: Result<(), FiniError>)
    ensures
        old(storage).dependable() ==> final(storage).dependable(),
        old(storage).dependable() ==> r is Ok,
        r matches Err(e) ==> e is Store,
        r is Ok ==> switched(*old(storage), *final(storage), n@, old(printer).printed(), final(printer).printed()),
        r is Err ==> final(storage).board() == old(storage).board(),
        same_contents(*old(storage), *final(storage)),
{
    let active = storage.active_board();
    if active.as_str().unicode_len() == n.unicode_len() && !crate::storage::name_less(active.as_str(), n)
        && !crate::storage::name_less(n, active.as_str()) {
        proof {
            if active@ != n@ {
                crate::storage::lemma_lex_total(active@, n@);
            }
        }
        return Ok(());
    }
    proof {
        if active@ == n@ {
            crate::storage::lemma_lex_irreflexive(n@);
        }
    }
    storage.switch_board(n)?;
    proof {
        assert(old(storage).boards().to_set().insert(n@).contains(n@));
        assert(storage.boards().to_set().contains(n@));
    }
    let mut m = joined_message("Switched to board '", n);
    crate::text::push_str(&mut m, "'.");
    printer.print(m.as_str());
    proof {
        reveal_strlit("Switched to board '");
        reveal_strlit("'.");
    }
    assert(printer.printed() =~= old(printer).printed() + switched_prefix() + n@ + seq!['\'', '.', '\n']);
    Ok(())
}

fn run_use<S: TaskStorage, P: Prompter, W: Printer>(
    storage: &mut S,
    prompter: &P,
    printer: &mut W,
    name: Option<String>,
) -> (r: Result<(), FiniError>)
    ensures
        old(storage).dependable() ==> final(storage).dependable(),
        (name matches Some(n) && !valid_board_name(trim(n@))) ==> r is Ok,
        old(storage).dependable() ==> r is Ok,
        r matches Err(e) ==> e is Store,
        r is Ok ==> match name {
            Some(n) => use_named(n@, *old(storage), *final(storage), old(printer).printed(), final(printer).printed()),
            None => use_chosen(*old(storage), *final(storage), old(printer).printed(), final(printer).printed()),
        },
        same_contents(*old(storage), *final(storage)),
{
    match name {
        Some(n) => {
            let t = trimmed(n.as_str());
            if !is_valid_board_name(t.as_str()) {
                let mut m = joined_message("Invalid board name: '", t.as_str());
                crate::text::push_str(&mut m, "'");
                printer.print(m.as_str());
                proof {
                    reveal_strlit("Invalid board name: '");
                    reveal_strlit("'");
                }
                assert(printer.printed() =~= old(printer).printed() + invalid_name_prefix() + t@ + seq!['\'', '\n']);
                return Ok(());
            }
            switch_to(storage, printer, t.as_str())
        },
        None => {
            let mut options = storage.list_boards()?;
            let ghost boards = texts(options@);
            let create = lit_string("+ create new board");
            options.push(create);
            let selection = match prompter.select_one("Select a board:", &options) {
                Ok(Some(i)) => i,
                _ => {
                    return Ok(());
                },
            };
            let chosen;
            if options[selection] == lit_string("+ create new board") {
                let answer = match prompter.text("Board name:") {
                    Ok(x) => x,
                    Err(_) => {
                        return Ok(());
                    },
                };
                let t = trimmed(answer.as_str());
                if !is_valid_board_name(t.as_str()) {
                    printer.print("Invalid board name.");
                    proof {
                        reveal_strlit("Invalid board name.");
                    }
                    assert(printer.printed() =~= old(printer).printed() + invalid_name_text() + seq!['\n']);
                    return Ok(());
                }
                chosen = t;
            } else {
                chosen = options[selection].clone();
                proof {
                    assert(selection < boards.len());
                    assert(boards[selection as int] == chosen@);
                    assert(storage.boards().contains(chosen@));
                }
            }
            let ghost cv = chosen@;
            switch_to(storage, printer, chosen.as_str())?;
            assert(switched(*old(storage), *storage, cv, old(printer).printed(), printer.printed()));
            Ok(())
        },
    }
}

/// What the command did, from the store `a`, leaving the store `b` and the copier
/// `c`, taking what was printed from `p0` to `p1`, and handing the link `opened` to
/// the browser, if any. `Interactive` does nothing here: the interactive loop is
/// the caller's (see `interactive_command`).
pub open spec fn command_done<S: TaskStorage, P: Prompter, C: Copier>(
    command: Command,
    pr: P,
    a: S,
    b: S,
    c: C,
    p0: Seq<char>,
    p1: Seq<char>,
    opened: Option<Seq<char>>,
) -> bool {
    &&& !(command is Open) ==> opened is None
    &&& command_effect(command, pr, a, b, c, p0, p1, opened)
}

/// What the command did (see `command_done`).
pub open spec fn command_effect<S: TaskStorage, P: Prompter, C: Copier>(
    command: Command,
    pr: P,
    a: S,
    b: S,
    c: C,
    p0: Seq<char>,
    p1: Seq<char>,
    opened: Option<Seq<char>>,
) -> bool {
    match command {
        Command::Add { title, link } => add_command_done(pr, link_view(title), link_view(link), a, b, p0, p1),
        Command::List { format } => b == a && list_shown(a, format, p0, p1),
        Command::Open { id } => b == a && open_command_done(pr, id, a, p0, p1, opened),
        Command::Begin { ids } => toggle_command_done(Toggle::Begin, pr, begin_question(), ids_view(ids), a, b, p0, p1),
        Command::Star { ids } => toggle_command_done(Toggle::Star, pr, star_question(), ids_view(ids), a, b, p0, p1),
        Command::Edit { id } => edit_command_done(pr, id, a, b, p0, p1),
        Command::Check { ids } => toggle_command_done(Toggle::Check, pr, check_question(), ids_view(ids), a, b, p0, p1),
        Command::Archive { ids } => archive_command_done(pr, ids_view(ids), a, b, p0, p1),
        Command::Delete { ids } => delete_command_done(pr, ids_view(ids), a, b, p0, p1),
        Command::Clear => clear_command_done(pr, a, b, p0, p1),
        Command::Copy { ids, format } => b == a && copy_command_done(pr, ids_view(ids), format, a, c, p0, p1),
        Command::CopyChecked { format } => b == a && copy_checked_done(format, a, c, p0, p1),
        Command::CopyAfterDate { date, format } => b == a && copy_after_command_done(pr, link_view(date), format, a, c, p0, p1),
        Command::ListBetween { date_a, date_b, format } => b == a && list_range_command_done(
            pr,
            link_view(date_a),
            Some(link_view(date_b)),
            format,
            a,
            p0,
            p1,
        ),
        Command::ListAfterDate { date, format } => b == a && list_range_command_done(pr, link_view(date), None, format, a, p0, p1),
        Command::Archived => b == a && archived_shown(a, p0, p1),
        Command::Interactive => b == a && p1 == p0,
        Command::Boards => b == a && p1 == p0 + printed_lines(board_lines(a.boards(), a.board())),
        Command::BoardPath => b == a && path_shown(a, p0, p1),
        Command::Use { name } => match name {
            Some(n) => use_named(n@, a, b, p0, p1),
            None => use_chosen(a, b, p0, p1),
        },
    }
}

/// The commands that copy to the clipboard.
pub open spec fn copies(command: Command) -> bool {
    command is Copy || command is CopyChecked || command is CopyAfterDate
}

/// The commands that ask the user for something they were not given (a title, a
/// task, tasks, a date), and fail if asking fails; `edit` always asks.
pub open spec fn asks(command: Command) -> bool {
    match command {
        Command::Add { title, .. } => title is None,
        Command::Open { id } => id is None,
        Command::Begin { ids } => ids is None,
        Command::Star { ids } => ids is None,
        Command::Check { ids } => ids is None,
        Command::Archive { ids } => ids is None,
        Command::Delete { ids } => ids is None,
        Command::Copy { ids, .. } => ids is None,
        Command::Edit { .. } => true,
        Command::CopyAfterDate { date, .. } => date is None,
        Command::ListAfterDate { date, .. } => date is None,
        Command::ListBetween { date_a, date_b, .. } => date_a is None || date_b is None,
        _ => false,
    }
}

/// The errors a command can end with: reading or writing the store failed, or a
/// date (in the store or given) could not be read; asking failed, for a command
/// that asks; copying failed, for a command that copies; opening the browser
/// failed, for `open`, or the task given is missing; the task to edit is missing,
/// for `edit`.
pub open spec fn fails_as(command: Command, e: FiniError) -> bool {
    ||| read_error(e)
    ||| e is Prompt && asks(command)
    ||| e is Clipboard && copies(command)
    ||| e is Browser && command is Open
    ||| e is TaskNotFound && (command matches Command::Open { id } && id is Some)
    ||| e is NoTaskToEdit && command is Edit
}

/// The tasks that a listing by date from the date written `d` (to the one written
/// `e`, if given) takes can be read and listed: the store's list and archive can
/// be read, the texts are dates, and each task taken has a date.
pub open spec fn range_listable<S: TaskStorage>(a: S, d: Seq<char>, e: Option<Seq<char>>) -> bool {
    match (tasks_now(a), archive_now(a)) {
        (Ok(s), Ok(arch)) => match range_ids(s + arch, d, e) {
            Some(ids) => forall|k: int| 0 <= k < with_ids(s + arch, ids).len()
                ==> (#[trigger] with_ids(s + arch, ids)[k]).active_date is Some,
            None => false,
        },
        _ => false,
    }
}

/// Where nothing outside decides against the command: the store does not fail;
/// for a command that asks, the prompter always replies; for one that copies, the
/// copier does not fail; what the command reads of the active board can be read;
/// for `Add` an id is left above the largest, for `Clear` one for each task; the
/// task to open or edit, if given, is there; and a listing by date has its dates
/// given, and they are dates (see `range_listable`).
pub open spec fn runs_through<S: TaskStorage, P: Prompter, C: Copier>(command: Command, a: S, pr: P, c: C) -> bool {
    &&& a.dependable()
    &&& asks(command) ==> always_replies(pr)
    &&& copies(command) ==> c.dependable()
    &&& match command {
        Command::Add { .. } => ready_with(a, |s: Seq<TaskView>| max_id(s) < usize::MAX),
        Command::Clear => ready_with(a, |s: Seq<TaskView>| max_id(s) + s.len() + 2 <= usize::MAX)
            && archive_now(a) is Ok,
        Command::Edit { id } => tasks_now(a) is Ok && (id matches Some(i) ==> !no_task_with_id(a, i as nat)),
        Command::Archive { .. } => tasks_now(a) is Ok && archive_now(a) is Ok,
        Command::Archived => archive_now(a) is Ok,
        Command::List { .. } => tasks_now(a) is Ok,
        Command::Begin { .. } => tasks_now(a) is Ok,
        Command::Star { .. } => tasks_now(a) is Ok,
        Command::Check { .. } => tasks_now(a) is Ok,
        Command::Delete { .. } => tasks_now(a) is Ok,
        Command::Open { id } => tasks_now(a) is Ok && (id matches Some(i) ==> !no_task_with_id(a, i as nat)),
        Command::Copy { .. } => tasks_now(a) is Ok,
        Command::CopyChecked { .. } => tasks_now(a) is Ok,
        Command::CopyAfterDate { date, .. } => date matches Some(d) && range_listable(a, d@, None),
        Command::ListAfterDate { date, .. } => date matches Some(d) && range_listable(a, d@, None),
        Command::ListBetween { date_a, date_b, .. } => date_a matches Some(d) && date_b matches Some(e)
            && range_listable(a, d@, Some(e@)),
        Command::Boards => true,
        Command::BoardPath => true,
        Command::Use { .. } => true,
        Command::Interactive => true,
    }
}

/// Why `Add` may fail: asking for the title failed (a reply the prompter may give),
/// or the store failed with a title that is not empty.
pub open spec fn add_fails_as<P: Prompter>(pr: P, given: Option<Seq<char>>, e: FiniError) -> bool {
    ||| e is Prompt && given is None && pr.may_give_text(title_question(), Err(e))
    ||| read_error(e) && exists|t: Seq<char>| #[trigger] title_taken(pr, given, t) && t.len() > 0
}

/// The title the command `Add` goes on with: the one given, or an answer the
/// prompter may give to `Enter task title:`.
pub open spec fn title_taken<P: Prompter>(pr: P, given: Option<Seq<char>>, t: Seq<char>) -> bool {
    match given {
        Some(g) => t == g,
        None => pr.may_give_text(title_question(), Ok(t)),
    }
}

/// Carries out the command on the store, asking the user through the prompter,
/// copying through the copier and printing through the printer (see
/// `command_done`); gives the link it opened in the browser, for `Open`. Only
/// `Use` changes which board is active; no command changes a board other than the
/// active one. Where nothing outside decides against it (see `runs_through`) the
/// command succeeds, but for the browser's own failure; `Edit` reads the list again
/// for the link after writing a new title, and fails if the list as written cannot
/// be read. `Add` fails only where asking for the title failed, or where the store
/// failed with a title that is not empty; `Clear` only after a yes; `Delete` with
/// the ids given only where the store failed or after a yes.
pub fn execute_command<S: TaskStorage, P: Prompter, C: Copier, W: Printer>(
    storage: &mut S,
    prompter: &P,
    copier: &mut C,
    printer: &mut W,
    command: Command,
) -> (r: Result<Option<String>, FiniError>)
    ensures
        old(storage).dependable() ==> final(storage).dependable(),
        old(copier).dependable() ==> final(copier).dependable(),
        runs_through(command, *old(storage), *prompter, *old(copier)) ==> r is Ok
            || (command is Edit && tasks_now(*final(storage)) is Err)
            || (command is Open && (r matches Err(e) && e is Browser)),
        (command matches Command::Add { title: Some(t), .. } && t@.len() == 0) ==> r is Ok,
        r matches Err(e) ==> match command {
            Command::Add { title, .. } => add_fails_as(*prompter, link_view(title), e),
            _ => true,
        },
        (command is Clear && r is Err) ==> prompter.may_confirm(clear_question(), Ok(true)),
        (command matches Command::Delete { ids } && ids is Some && r is Err) ==> tasks_now(*old(storage)) is Err
            || !old(storage).dependable() || prompter.may_confirm(delete_question(), Ok(true)),
        (command matches Command::Use { name: Some(n) } && !valid_board_name(trim(n@))) ==> r is Ok,
        r matches Ok(o) ==> command_done(command, *prompter, *old(storage), *final(storage), *final(copier),
            old(printer).printed(), final(printer).printed(), link_view(o)),
        r matches Err(e) ==> fails_as(command, e),
        command is List && tasks_now(*old(storage)) is Err ==> r is Err,
        command is Archived && archive_now(*old(storage)) is Err ==> r is Err,
        command is Interactive || command is BoardPath ==> r is Ok,
        !copies(command) ==> *final(copier) == *old(copier),
        !(command is Use) ==> kept_but_active(*old(storage), *final(storage)),
        command is Use ==> same_contents(*old(storage), *final(storage)),
{
    proof {
        reveal_strlit("Select tasks to begin");
        reveal_strlit("Select tasks to star");
        reveal_strlit("Select tasks to check");
        assert("Select tasks to begin"@ =~= begin_question());
        assert("Select tasks to star"@ =~= star_question());
        assert("Select tasks to check"@ =~= check_question());
    }
    let r = match command {
        Command::Open { id } => {
            return run_open(storage, prompter, printer, id);
        },
        Command::Add { title, link } => run_add(storage, prompter, printer, title, link),
        Command::List { format } => list(storage, printer, format),
        Command::Begin { ids } => run_toggle(Toggle::Begin, storage, prompter, printer, ids, "Select tasks to begin"),
        Command::Star { ids } => run_toggle(Toggle::Star, storage, prompter, printer, ids, "Select tasks to star"),
        Command::Edit { id } => run_edit(storage, prompter, printer, id),
        Command::Check { ids } => run_toggle(Toggle::Check, storage, prompter, printer, ids, "Select tasks to check"),
        Command::Archive { ids } => run_archive(storage, prompter, printer, ids),
        Command::Delete { ids } => run_delete(storage, prompter, printer, ids),
        Command::Clear => run_clear(storage, prompter, printer),
        Command::Copy { ids, format } => run_copy(storage, prompter, copier, printer, ids, format),
        Command::CopyChecked { format } => run_copy_checked(storage, copier, printer, format),
        Command::CopyAfterDate { date, format } => run_copy_after(storage, prompter, copier, printer, date, format),
        Command::ListBetween { date_a, date_b, format } => run_list_range(storage, prompter, printer, date_a, Some(date_b), format),
        Command::ListAfterDate { date, format } => run_list_range(storage, prompter, printer, date, None, format),
        Command::Archived => archived(storage, printer),
        Command::Interactive => Ok(()),
        Command::Boards => run_boards(storage, printer),
        Command::BoardPath => {
            run_board_path(storage, printer);
            Ok(())
        },
        Command::Use { name } => run_use(storage, prompter, printer, name),
    };
    match r {
        Ok(()) => Ok(None),
        Err(e) => Err(e),
    }
}

// ---------------------------------------------------------------------------
// The interactive loop

/// What the interactive loop does with an answer from its menu.
pub enum InteractiveStep {
    /// Stop.
    Quit,
    /// List the tasks again (the loop lists them each time round).
    Relist,
    /// Carry out the command.
    Run(Command),
    /// The answer is no entry of the menu.
    Unknown,
}

/// The entries of the interactive menu, in order.
pub open spec fn menu_entries() -> Seq<Seq<char>> {
    seq![
        seq!['q', 'u', 'i', 't'],
        seq!['l', 'i', 's', 't'],
        seq!['a', 'd', 'd'],
        seq!['c', 'h', 'e', 'c', 'k'],
        seq!['b', 'e', 'g', 'i', 'n'],
        seq!['s', 't', 'a', 'r'],
        seq!['o', 'p', 'e', 'n'],
        seq!['c', 'o', 'p', 'y'],
        seq!['c', 'o', 'p', 'y', '-', 'm', 'a', 'r', 'k', 'd', 'o', 'w', 'n'],
        seq!['c', 'o', 'p', 'y', '-', 'a', 'f', 't', 'e', 'r'],
        seq!['c', 'l', 'e', 'a', 'r'],
        seq!['d', 'e', 'l', 'e', 't', 'e'],
        seq!['e', 'd', 'i', 't'],
        seq!['l', 'i', 's', 't', '-', 'a', 'r', 'c', 'h', 'i', 'v', 'e', 'd'],
        seq!['b', 'o', 'a', 'r', 'd', 's'],
    ]
}

/// The interactive menu.
pub fn interactive_menu() -> (r: Vec<String>)
    ensures
        texts(r@) == menu_entries(),
{
    let mut r: Vec<String> = Vec::new();
    r.push(lit_string("quit"));
    r.push(lit_string("list"));
    r.push(lit_string("add"));
    r.push(lit_string("check"));
    r.push(lit_string("begin"));
    r.push(lit_string("star"));
    r.push(lit_string("open"));
    r.push(lit_string("copy"));
    r.push(lit_string("copy-markdown"));
    r.push(lit_string("copy-after"));
    r.push(lit_string("clear"));
    r.push(lit_string("delete"));
    r.push(lit_string("edit"));
    r.push(lit_string("list-archived"));
    r.push(lit_string("boards"));
    proof {
        reveal_strlit("quit");
        reveal_strlit("list");
        reveal_strlit("add");
        reveal_strlit("check");
        reveal_strlit("begin");
        reveal_strlit("star");
        reveal_strlit("open");
        reveal_strlit("copy");
        reveal_strlit("copy-markdown");
        reveal_strlit("copy-after");
        reveal_strlit("clear");
        reveal_strlit("delete");
        reveal_strlit("edit");
        reveal_strlit("list-archived");
        reveal_strlit("boards");
    }
    assert(r@.len() == 15);
    assert(texts(r@) =~~= menu_entries());
    r
}

/// What the loop does with the answer: `quit` stops; `list` lists again; each other
/// entry runs its command, asking for what it needs (`copy` with links after the
/// titles, `copy-markdown` as Markdown links, `copy-after` from a date, with links
/// after the titles, `list-archived` the archive, `boards` a switch to the board the
/// user picks, whose tasks the loop then lists).
pub open spec fn step_for(answer: Seq<char>) -> InteractiveStep {
    let m = menu_entries();
    if answer == m[0] {
        InteractiveStep::Quit
    } else if answer == m[1] {
        InteractiveStep::Relist
    } else if answer == m[2] {
        InteractiveStep::Run(Command::Add { title: None, link: None })
    } else if answer == m[3] {
        InteractiveStep::Run(Command::Check { ids: None })
    } else if answer == m[4] {
        InteractiveStep::Run(Command::Begin { ids: None })
    } else if answer == m[5] {
        InteractiveStep::Run(Command::Star { ids: None })
    } else if answer == m[6] {
        InteractiveStep::Run(Command::Open { id: None })
    } else if answer == m[7] {
        InteractiveStep::Run(Command::Copy { ids: None, format: LinkFormat::Adjacent })
    } else if answer == m[8] {
        InteractiveStep::Run(Command::Copy { ids: None, format: LinkFormat::Markdown })
    } else if answer == m[9] {
        InteractiveStep::Run(Command::CopyAfterDate { date: None, format: LinkFormat::Adjacent })
    } else if answer == m[10] {
        InteractiveStep::Run(Command::Clear)
    } else if answer == m[11] {
        InteractiveStep::Run(Command::Delete { ids: None })
    } else if answer == m[12] {
        InteractiveStep::Run(Command::Edit { id: None })
    } else if answer == m[13] {
        InteractiveStep::Run(Command::Archived)
    } else if answer == m[14] {
        InteractiveStep::Run(Command::Use { name: None })
    } else {
        InteractiveStep::Unknown
    }
}

/// What the interactive loop does with an answer from its menu (see `step_for`).
pub fn interactive_command(answer: &str) -> (r: InteractiveStep)
    ensures
        r == step_for(answer@),
{
    let menu = interactive_menu();
    let a = String::from_str(answer);
    proof {
        assert(texts(menu@).len() == menu@.len());
        assert(menu@.len() == 15);
        assert(forall|k: int| 0 <= k < 15 ==> #[trigger] texts(menu@)[k] == menu@[k]@);
    }
    if a == menu[0] {
        InteractiveStep::Quit
    } else if a == menu[1] {
        InteractiveStep::Relist
    } else if a == menu[2] {
        InteractiveStep::Run(Command::Add { title: None, link: None })
    } else if a == menu[3] {
        InteractiveStep::Run(Command::Check { ids: None })
    } else if a == menu[4] {
        InteractiveStep::Run(Command::Begin { ids: None })
    } else if a == menu[5] {
        InteractiveStep::Run(Command::Star { ids: None })
    } else if a == menu[6] {
        InteractiveStep::Run(Command::Open { id: None })
    } else if a == menu[7] {
        InteractiveStep::Run(Command::Copy { ids: None, format: LinkFormat::Adjacent })
    } else if a == menu[8] {
        InteractiveStep::Run(Command::Copy { ids: None, format: LinkFormat::Markdown })
    } else if a == menu[9] {
        InteractiveStep::Run(Command::CopyAfterDate { date: None, format: LinkFormat::Adjacent })
    } else if a == menu[10] {
        InteractiveStep::Run(Command::Clear)
    } else if a == menu[11] {
        InteractiveStep::Run(Command::Delete { ids: None })
    } else if a == menu[12] {
        InteractiveStep::Run(Command::Edit { id: None })
    } else if a == menu[13] {
        InteractiveStep::Run(Command::Archived)
    } else if a == menu[14] {
        InteractiveStep::Run(Command::Use { name: None })
    } else {
        InteractiveStep::Unknown
    }
}

/// The interactive step and the session command do the same: stop, list again, or
/// the same command on tasks the user picks (copying with links after the titles,
/// listing the archive).
pub open spec fn runs_same(step: InteractiveStep, c: SessionCommand) -> bool {
    match (step, c) {
        (InteractiveStep::Quit, SessionCommand::Quit) => true,
        (InteractiveStep::Relist, SessionCommand::List) => true,
        (InteractiveStep::Run(Command::Add { title: None, link: None }), SessionCommand::Add) => true,
        (InteractiveStep::Run(Command::Check { ids: None }), SessionCommand::Check) => true,
        (InteractiveStep::Run(Command::Begin { ids: None }), SessionCommand::Begin) => true,
        (InteractiveStep::Run(Command::Star { ids: None }), SessionCommand::Star) => true,
        (InteractiveStep::Run(Command::Copy { ids: None, format: LinkFormat::Adjacent }), SessionCommand::Copy) => true,
        (InteractiveStep::Run(Command::Clear), SessionCommand::Clear) => true,
        (InteractiveStep::Run(Command::Delete { ids: None }), SessionCommand::Delete) => true,
        (InteractiveStep::Run(Command::Edit { id: None }), SessionCommand::Edit) => true,
        (InteractiveStep::Run(Command::Archived), SessionCommand::ListArchived) => true,
        _ => false,
    }
}

/// Law: an entry that both menus offer does the same in both: the interactive
/// loop and the session over a single list agree on what `check`, `begin`, `star`
/// and the other common entries do.
pub proof fn law_menus_agree(n: Seq<char>)
    requires
        menu_entries().contains(n),
        session_entries().contains(n),
    ensures
        runs_same(step_for(n), session_command_for(n)),
{
    let m = menu_entries();
    let e = session_entries();
    let i = choose|i: int| 0 <= i < m.len() && m[i] == n;
    let j = choose|j: int| 0 <= j < e.len() && e[j] == n;
    assert(m[i] == e[j]);
    assert(i == 0 || i == 1 || i == 2 || i == 3 || i == 4 || i == 5 || i == 7 || i == 10 || i == 11 || i == 12 || i == 13) by {
        if i == 6 || i == 8 || i == 9 || i == 14 {
            assert(m[i].len() != e[j].len() || m[i][0] != e[j][0] || m[i][1] != e[j][1] || m[i][5] != e[j][5]);
        }
    }
}

/// What each entry of the interactive menu does, in order.
proof fn lemma_step_values()
    ensures
        step_for(menu_entries()[0]) == InteractiveStep::Quit,
        step_for(menu_entries()[1]) == InteractiveStep::Relist,
        step_for(menu_entries()[2]) == InteractiveStep::Run(Command::Add { title: None, link: None }),
        step_for(menu_entries()[3]) == InteractiveStep::Run(Command::Check { ids: None }),
        step_for(menu_entries()[4]) == InteractiveStep::Run(Command::Begin { ids: None }),
        step_for(menu_entries()[5]) == InteractiveStep::Run(Command::Star { ids: None }),
        step_for(menu_entries()[6]) == InteractiveStep::Run(Command::Open { id: None }),
        step_for(menu_entries()[7]) == InteractiveStep::Run(Command::Copy { ids: None, format: LinkFormat::Adjacent }),
        step_for(menu_entries()[8]) == InteractiveStep::Run(Command::Copy { ids: None, format: LinkFormat::Markdown }),
        step_for(menu_entries()[9]) == InteractiveStep::Run(Command::CopyAfterDate { date: None, format: LinkFormat::Adjacent }),
        step_for(menu_entries()[10]) == InteractiveStep::Run(Command::Clear),
        step_for(menu_entries()[11]) == InteractiveStep::Run(Command::Delete { ids: None }),
        step_for(menu_entries()[12]) == InteractiveStep::Run(Command::Edit { id: None }),
        step_for(menu_entries()[13]) == InteractiveStep::Run(Command::Archived),
        step_for(menu_entries()[14]) == InteractiveStep::Run(Command::Use { name: None }),
{
    let m = menu_entries();
    assert(m[0].len() == 4 && m[0][0] == 'q');
    assert(m[1].len() == 4 && m[1][0] == 'l');
    assert(m[2].len() == 3 && m[2][0] == 'a');
    assert(m[3].len() == 5 && m[3][0] == 'c');
    assert(m[4].len() == 5 && m[4][0] == 'b');
    assert(m[5].len() == 4 && m[5][0] == 's');
    assert(m[6].len() == 4 && m[6][0] == 'o');
    assert(m[7].len() == 4 && m[7][0] == 'c');
    assert(m[8].len() == 13 && m[8][0] == 'c');
    assert(m[9].len() == 10 && m[9][0] == 'c');
    assert(m[10].len() == 5 && m[10][0] == 'c');
    assert(m[11].len() == 6 && m[11][0] == 'd');
    assert(m[12].len() == 4 && m[12][0] == 'e');
    assert(m[13].len() == 13 && m[13][0] == 'l');
    assert(m[14].len() == 6 && m[14][0] == 'b');
    assert(m[3][1] == 'h' && m[10][1] == 'l');
}

/// Law: every entry of the interactive menu is known, and no two entries do the
/// same: each runs a command of its own (or stops, or lists again).
pub proof fn law_menu_entries_distinct(i: int, j: int)
    requires
        0 <= i < j < menu_entries().len(),
    ensures
        step_for(menu_entries()[i]) != step_for(menu_entries()[j]),
        !(step_for(menu_entries()[i]) is Unknown),
        !(step_for(menu_entries()[j]) is Unknown),
{
    lemma_step_values();
}

/// What each entry of the session's menu does, in order.
proof fn lemma_session_values()
    ensures
        session_command_for(session_entries()[0]) == SessionCommand::Quit,
        session_command_for(session_entries()[1]) == SessionCommand::List,
        session_command_for(session_entries()[2]) == SessionCommand::Add,
        session_command_for(session_entries()[3]) == SessionCommand::Check,
        session_command_for(session_entries()[4]) == SessionCommand::Begin,
        session_command_for(session_entries()[5]) == SessionCommand::Star,
        session_command_for(session_entries()[6]) == SessionCommand::Copy,
        session_command_for(session_entries()[7]) == SessionCommand::CopyDate,
        session_command_for(session_entries()[8]) == SessionCommand::CopyChecked,
        session_command_for(session_entries()[9]) == SessionCommand::Clear,
        session_command_for(session_entries()[10]) == SessionCommand::Delete,
        session_command_for(session_entries()[11]) == SessionCommand::Edit,
        session_command_for(session_entries()[12]) == SessionCommand::ListArchived,
{
    let m = session_entries();
    assert(m[0].len() == 4 && m[0][0] == 'q');
    assert(m[1].len() == 4 && m[1][0] == 'l');
    assert(m[2].len() == 3 && m[2][0] == 'a');
    assert(m[3].len() == 5 && m[3][0] == 'c');
    assert(m[4].len() == 5 && m[4][0] == 'b');
    assert(m[5].len() == 4 && m[5][0] == 's');
    assert(m[6].len() == 4 && m[6][0] == 'c');
    assert(m[7].len() == 9 && m[7][0] == 'c');
    assert(m[8].len() == 12 && m[8][0] == 'c');
    assert(m[9].len() == 5 && m[9][0] == 'c');
    assert(m[10].len() == 6 && m[10][0] == 'd');
    assert(m[11].len() == 4 && m[11][0] == 'e');
    assert(m[12].len() == 13 && m[12][0] == 'l');
    assert(m[3][1] == 'h' && m[9][1] == 'l');
}

/// Law: every entry of the session's menu is known, and no two entries name the
/// same command.
pub proof fn law_session_entries_distinct(i: int, j: int)
    requires
        0 <= i < j < session_entries().len(),
    ensures
        session_command_for(session_entries()[i]) != session_command_for(session_entries()[j]),
        session_command_for(session_entries()[i]) != SessionCommand::Unknown,
        session_command_for(session_entries()[j]) != SessionCommand::Unknown,
{
    lemma_session_values();
}

} // verus!
