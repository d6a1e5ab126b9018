//! Where the task lists are kept: boards, each with its task list and its archive.

use vstd::prelude::*;
use crate::text::{chars_of, push_char, push_str, digit};
use crate::date::padded_decimal;
use crate::error::FiniError;
use crate::task_item::{Status, TaskItem, TaskView, views};
use crate::markdown::{
    dates_valid, all_dated, task_file_text, parse_tasks_result, parse_archive_result,
    parse_markdown_tasks, parse_markdown_archive_with_start_id, tasks_as_markdown,
    archived_tasks_as_markdown, lemma_read_tasks_dates, lemma_read_archive_dates,
};
use crate::roundtrip::{
    archive_file_text, law_empty_text_reads_empty, lemma_markdown_archive_text, law_task_file_round_trip,
    law_archive_file_round_trip, plain_task, plain_archived, renumbered, archived_renumbered,
};
use crate::commands::LinkFormat;
use crate::sort::{SortKey, stable_sort, sorted_by_key, unnumbered, unnumbered_multiset, lemma_unnumbered_multiset, law_stable_sort_orders, lemma_map_multiset};
use crate::util::texts;

verus! {

// ---------------------------------------------------------------------------
// The order of board names

/// `a` comes before `b` in the order of `str`, comparing from position `i` on
/// (the characters before `i` being equal): by the first character that differs,
/// else the shorter first.
pub open spec fn lex_lt_from(a: Seq<char>, b: Seq<char>, i: int) -> bool
    decreases a.len() - i,
{
    if i < 0 || i >= a.len() {
        0 <= i < b.len()
    } else if i >= b.len() {
        false
    } else if a[i] != b[i] {
        a[i] < b[i]
    } else {
        lex_lt_from(a, b, i + 1)
    }
}

/// `a` comes before `b` in the order of `str` (which orders by code points).
pub open spec fn lex_lt(a: Seq<char>, b: Seq<char>) -> bool {
    lex_lt_from(a, b, 0)
}

/// The names are in strictly increasing order (so no name is there twice).
pub open spec fn names_sorted(names: Seq<Seq<char>>) -> bool {
    forall|i: int, j: int| 0 <= i < j < names.len() ==> lex_lt(#[trigger] names[i], #[trigger] names[j])
}

proof fn lemma_lex_from_irreflexive(a: Seq<char>, i: int)
    requires
        0 <= i,
    ensures
        !lex_lt_from(a, a, i),
    decreases a.len() - i,
{
    if i < a.len() {
        lemma_lex_from_irreflexive(a, i + 1);
    }
}

/// No name comes before itself.
pub proof fn lemma_lex_irreflexive(a: Seq<char>)
    ensures
        !lex_lt(a, a),
{
    lemma_lex_from_irreflexive(a, 0);
}

proof fn lemma_lex_from_trans(a: Seq<char>, b: Seq<char>, c: Seq<char>, i: int)
    requires
        0 <= i,
        i <= a.len(),
        i <= b.len(),
        i <= c.len(),
        lex_lt_from(a, b, i),
        lex_lt_from(b, c, i),
    ensures
        lex_lt_from(a, c, i),
    decreases a.len() - i,
{
    if i < a.len() && i < b.len() && i < c.len() && a[i] == b[i] && b[i] == c[i] {
        lemma_lex_from_trans(a, b, c, i + 1);
    }
}

/// The order is transitive.
pub proof fn lemma_lex_trans(a: Seq<char>, b: Seq<char>, c: Seq<char>)
    requires
        lex_lt(a, b),
        lex_lt(b, c),
    ensures
        lex_lt(a, c),
{
    lemma_lex_from_trans(a, b, c, 0);
}

proof fn lemma_lex_from_total(a: Seq<char>, b: Seq<char>, i: int)
    requires
        0 <= i,
        i <= a.len(),
        i <= b.len(),
        a.take(i) == b.take(i),
        !lex_lt_from(a, b, i),
        !lex_lt_from(b, a, i),
    ensures
        a == b,
    decreases a.len() - i,
{
    if i < a.len() && i < b.len() {
        assert(a.take(i + 1) =~= a.take(i).push(a[i]));
        assert(b.take(i + 1) =~= b.take(i).push(b[i]));
        lemma_lex_from_total(a, b, i + 1);
    } else {
        assert(a =~= a.take(i));
        assert(b =~= b.take(i));
    }
}

/// Of two different names, one comes before the other.
pub proof fn lemma_lex_total(a: Seq<char>, b: Seq<char>)
    requires
        a != b,
    ensures
        lex_lt(a, b) || lex_lt(b, a),
{
    if !lex_lt(a, b) && !lex_lt(b, a) {
        assert(a.take(0) =~= b.take(0));
        lemma_lex_from_total(a, b, 0);
    }
}

/// Whether `a` comes before `b` in the order of `str`.
pub fn name_less(a: &str, b: &str) -> (r: bool)
    ensures
        r == lex_lt(a@, b@),
{
    let x = chars_of(a);
    let y = chars_of(b);
    let mut i: usize = 0;
    while i < x.len() && i < y.len() && x[i] == y[i]
        invariant
            x@ == a@,
            y@ == b@,
            i <= x.len(),
            i <= y.len(),
            lex_lt(a@, b@) == lex_lt_from(a@, b@, i as int),
        decreases x.len() - i,
    {
        i += 1;
    }
    if i < x.len() && i < y.len() {
        x[i] < y[i]
    } else {
        i == x.len() && i < y.len()
    }
}


// ---------------------------------------------------------------------------
// Stores

/// What a reading gives for a text too long to number its lines with a `usize`.
pub open spec fn too_long_text() -> Seq<char> {
    seq!['t', 'o', 'o', ' ', 'l', 'o', 'n', 'g']
}

/// What a task file's text reads as: its tasks, ids counted from 1, or why it cannot
/// be read (a date header that is no date, or a text too long to number).
pub open spec fn task_text_reading(text: Seq<char>) -> Result<Seq<TaskView>, Seq<char>> {
    if text.len() + 2 <= usize::MAX {
        parse_tasks_result(text, 1)
    } else {
        Err(too_long_text())
    }
}

/// What an archive file's text reads as: its archived tasks, ids counted from
/// 100000, or why it cannot be read.
pub open spec fn archive_text_reading(text: Seq<char>) -> Result<Seq<TaskView>, Seq<char>> {
    if text.len() + archive_start_id() + 1 <= usize::MAX {
        parse_archive_result(text, archive_start_id())
    } else {
        Err(too_long_text())
    }
}

/// What a task list reads back as once it has been written: the task file text of
/// the tasks, read.
pub open spec fn written_tasks(s: Seq<TaskView>) -> Result<Seq<TaskView>, Seq<char>> {
    task_text_reading(task_file_text(s))
}

/// The first id given to archived tasks when they are read.
pub open spec fn archive_start_id() -> nat {
    100000
}

/// What an archive reads back as once it has been written: the archive file text of
/// the tasks, read.
pub open spec fn written_archive(s: Seq<TaskView>) -> Result<Seq<TaskView>, Seq<char>> {
    archive_text_reading(archive_file_text(s))
}

/// An error that reading a store gives: the store failed, or a date in it could
/// not be read.
pub open spec fn read_error(e: FiniError) -> bool {
    e is Store || e is InvalidDate
}

/// A place that boards are kept in, each board with a task list and an archive;
/// one board is the active one, which reading and writing go to.
pub trait TaskStorage: Sized {
    // The model of a store. A store outside this crate need not give one; what is
    // proved of its use then holds of whatever model it keeps to.

    /// What reading the task list of the named board gives: its tasks, or why they
    /// cannot be read. A board that does not exist reads as empty.
    closed spec fn tasks_of(&self, board: Seq<char>) -> Result<Seq<TaskView>, Seq<char>> {
        arbitrary()
    }

    /// What reading the archive of the named board gives.
    closed spec fn archive_of(&self, board: Seq<char>) -> Result<Seq<TaskView>, Seq<char>> {
        arbitrary()
    }

    /// The name of the active board.
    closed spec fn board(&self) -> Seq<char> {
        arbitrary()
    }

    /// The names of the boards, in order.
    closed spec fn boards(&self) -> Seq<Seq<char>> {
        arbitrary()
    }

    /// Where the active board is kept, for stores that keep it at a path.
    closed spec fn path(&self) -> Option<Seq<char>> {
        arbitrary()
    }

    /// The store does not fail: reading fails only where the model says the list
    /// cannot be read, and writing, listing the boards and switching succeed (and
    /// leave it so).
    closed spec fn dependable(&self) -> bool {
        arbitrary()
    }

    /// Reads the active board's task list.
    fn read_tasks(&self) -> (r: Result<Vec<TaskItem>, FiniError>)
        ensures
            r matches Ok(v) ==> self.tasks_of(self.board()) == Ok::<Seq<TaskView>, Seq<char>>(views(v@))
                && dates_valid(views(v@)),
            self.tasks_of(self.board()) is Err ==> r is Err,
            self.dependable() && self.tasks_of(self.board()) is Ok ==> r is Ok,
            r matches Err(e) ==> read_error(e),
    ;

    /// Reads the active board's archive.
    fn read_archived(&self) -> (r: Result<Vec<TaskItem>, FiniError>)
        ensures
            r matches Ok(v) ==> self.archive_of(self.board()) == Ok::<Seq<TaskView>, Seq<char>>(views(v@))
                && all_dated(views(v@)),
            self.archive_of(self.board()) is Err ==> r is Err,
            self.dependable() && self.archive_of(self.board()) is Ok ==> r is Ok,
            r matches Err(e) ==> read_error(e),
    ;

    /// Writes the active board's task list; nothing else changes.
    fn write_tasks(&mut self, tasks: Vec<TaskItem>) -> (r: Result<(), FiniError>)
        requires
            dates_valid(views(tasks@)),
        ensures
            r is Ok ==> final(self).tasks_of(old(self).board()) == written_tasks(views(tasks@)),
            r matches Err(e) ==> e is Store,
            old(self).dependable() ==> r is Ok && final(self).dependable(),
            final(self).board() == old(self).board(),
            final(self).boards() == old(self).boards(),
            final(self).path() == old(self).path(),
            forall|n: Seq<char>| n != old(self).board() ==> #[trigger] final(self).tasks_of(n) == old(self).tasks_of(n),
            forall|n: Seq<char>| #[trigger] final(self).archive_of(n) == old(self).archive_of(n),
    ;

    /// Writes the active board's archive; nothing else changes.
    fn write_archived(&mut self, tasks: Vec<TaskItem>) -> (r: Result<(), FiniError>)
        requires
            all_dated(views(tasks@)),
        ensures
            r is Ok ==> final(self).archive_of(old(self).board()) == written_archive(views(tasks@)),
            r matches Err(e) ==> e is Store,
            old(self).dependable() ==> r is Ok && final(self).dependable(),
            final(self).board() == old(self).board(),
            final(self).boards() == old(self).boards(),
            final(self).path() == old(self).path(),
            forall|n: Seq<char>| #[trigger] final(self).tasks_of(n) == old(self).tasks_of(n),
            forall|n: Seq<char>| n != old(self).board() ==> #[trigger] final(self).archive_of(n) == old(self).archive_of(n),
    ;

    /// The name of the active board, which is one of the boards.
    fn active_board(&self) -> (r: String)
        ensures
            r@ == self.board(),
            self.boards().contains(self.board()),
    ;

    /// The names of the boards, in order.
    fn list_boards(&self) -> (r: Result<Vec<String>, FiniError>)
        ensures
            r matches Ok(v) ==> texts(v@) == self.boards() && names_sorted(self.boards()),
            r matches Err(e) ==> e is Store,
            self.dependable() ==> r is Ok,
    ;

    /// Makes the named board the active one, adding it if there is none of that
    /// name; no board's tasks change.
    fn switch_board(&mut self, name: &str) -> (r: Result<(), FiniError>)
        ensures
            r is Ok ==> final(self).board() == name@,
            r is Ok ==> final(self).boards().to_set() == old(self).boards().to_set().insert(name@),
            r is Err ==> final(self).board() == old(self).board(),
            r matches Err(e) ==> e is Store,
            old(self).dependable() ==> r is Ok && final(self).dependable(),
            forall|n: Seq<char>| #[trigger] final(self).tasks_of(n) == old(self).tasks_of(n),
            forall|n: Seq<char>| #[trigger] final(self).archive_of(n) == old(self).archive_of(n),
            !old(self).boards().contains(name@) ==> final(self).tasks_of(name@) == Ok::<Seq<TaskView>, Seq<char>>(Seq::empty())
                && final(self).archive_of(name@) == Ok::<Seq<TaskView>, Seq<char>>(Seq::empty()),
    ;

    /// Where the active board is kept, if the store keeps it at a path.
    fn active_board_path(&self) -> (r: Option<String>)
        ensures
            r matches Some(p) ==> self.path() == Some(p@),
            r is None ==> self.path() is None,
    ;
}

/// Law: once a board's task list is written, reading it gives back the tasks (those
/// the file keeps as they are, see `plain_task`), numbered from 1 in the order of the
/// file and in the order the list shows them.
pub proof fn law_written_tasks_read_back(tasks: Seq<TaskView>)
    requires
        forall|i: int| 0 <= i < tasks.len() ==> plain_task(#[trigger] tasks[i]),
        task_file_text(tasks).len() + 2 <= usize::MAX,
    ensures
        written_tasks(tasks) == Ok::<Seq<TaskView>, Seq<char>>(
            stable_sort(SortKey::DoneThenStarThenDate, renumbered(stable_sort(SortKey::ByDate, tasks), 1)),
        ),
{
    law_task_file_round_trip(tasks, 1);
}

/// Law: once a board's task list is written, reading it gives back the very tasks
/// written (those the file keeps as they are, see `plain_task`), each as often as
/// it was written, but for their ids, in the order the list shows them.
pub proof fn law_written_tasks_permuted(tasks: Seq<TaskView>)
    requires
        forall|i: int| 0 <= i < tasks.len() ==> plain_task(#[trigger] tasks[i]),
        task_file_text(tasks).len() + 2 <= usize::MAX,
    ensures
        written_tasks(tasks) matches Ok(v) && v.len() == tasks.len()
            && unnumbered_multiset(v) == unnumbered_multiset(tasks)
            && sorted_by_key(SortKey::DoneThenStarThenDate, v),
{
    broadcast use vstd::seq_lib::group_to_multiset_ensures;
    law_task_file_round_trip(tasks, 1);
    let sorted = stable_sort(SortKey::ByDate, tasks);
    let r = renumbered(sorted, 1);
    let v = stable_sort(SortKey::DoneThenStarThenDate, r);
    law_stable_sort_orders(SortKey::ByDate, tasks);
    law_stable_sort_orders(SortKey::DoneThenStarThenDate, r);
    lemma_unnumbered_multiset(v, r);
    lemma_unnumbered_multiset(sorted, tasks);
    let f = |t: TaskView| unnumbered(t);
    assert(r.map_values(f) =~= sorted.map_values(f));
    assert(tasks.to_multiset().len() == sorted.to_multiset().len());
    assert(r.to_multiset().len() == v.to_multiset().len());
}

/// A task as an archive keeps it, but for its id: archived, without a star.
pub open spec fn filed(t: TaskView) -> TaskView {
    TaskView { id: 0, status: Status::Archived, star: None, ..t }
}

/// Law: once a board's archive is written, reading it gives back the very tasks
/// written (those an archive file keeps, see `plain_archived`), each as often as it
/// was written, archived and unstarred, but for their ids, ordered by date.
pub proof fn law_written_archive_permuted(tasks: Seq<TaskView>)
    requires
        forall|i: int| 0 <= i < tasks.len() ==> plain_archived(#[trigger] tasks[i]),
        archive_file_text(tasks).len() + archive_start_id() + 1 <= usize::MAX,
    ensures
        written_archive(tasks) matches Ok(v) && v.len() == tasks.len()
            && unnumbered_multiset(v) == tasks.map_values(|t: TaskView| filed(t)).to_multiset()
            && sorted_by_key(SortKey::ByDate, v),
{
    broadcast use vstd::seq_lib::group_to_multiset_ensures;
    law_archive_file_round_trip(tasks, archive_start_id());
    let sorted = stable_sort(SortKey::ByDate, tasks);
    let v = archived_renumbered(sorted, archive_start_id());
    law_stable_sort_orders(SortKey::ByDate, tasks);
    let g = |t: TaskView| filed(t);
    lemma_map_multiset(sorted, tasks, g);
    assert(v.map_values(|t: TaskView| unnumbered(t)) =~= sorted.map_values(g));
    assert(tasks.to_multiset().len() == sorted.to_multiset().len());
    assert forall|i: int, j: int| 0 <= i < j < v.len() implies crate::sort::key_le(SortKey::ByDate, #[trigger] v[i], #[trigger] v[j]) by {
        assert(crate::sort::key_le(SortKey::ByDate, sorted[i], sorted[j]));
    }
}

/// Law: once a board's archive is written, reading it gives back the tasks (those
/// an archive file keeps, see `plain_archived`), archived and unstarred, ordered by
/// date and numbered from 100000.
pub proof fn law_written_archive_read_back(tasks: Seq<TaskView>)
    requires
        forall|i: int| 0 <= i < tasks.len() ==> plain_archived(#[trigger] tasks[i]),
        archive_file_text(tasks).len() + archive_start_id() + 1 <= usize::MAX,
    ensures
        written_archive(tasks) == Ok::<Seq<TaskView>, Seq<char>>(
            archived_renumbered(stable_sort(SortKey::ByDate, tasks), archive_start_id()),
        ),
{
    law_archive_file_round_trip(tasks, archive_start_id());
}

/// The task list of the active board, as reading gives it.
pub open spec fn tasks_now<S: TaskStorage>(s: S) -> Result<Seq<TaskView>, Seq<char>> {
    s.tasks_of(s.board())
}

/// The archive of the active board, as reading gives it.
pub open spec fn archive_now<S: TaskStorage>(s: S) -> Result<Seq<TaskView>, Seq<char>> {
    s.archive_of(s.board())
}

/// No board's task list or archive differs between `a` and `b`.
pub open spec fn same_contents<S: TaskStorage>(a: S, b: S) -> bool {
    &&& forall|n: Seq<char>| #[trigger] b.tasks_of(n) == a.tasks_of(n)
    &&& forall|n: Seq<char>| #[trigger] b.archive_of(n) == a.archive_of(n)
}

/// The active board, the boards and the path are the same in `a` and `b`.
pub open spec fn same_boards<S: TaskStorage>(a: S, b: S) -> bool {
    &&& b.board() == a.board()
    &&& b.boards() == a.boards()
    &&& b.path() == a.path()
}

// ---------------------------------------------------------------------------
// A store in memory

/// A board kept in memory: its name, and the texts of its task file and its
/// archive file.
struct Board {
    name: String,
    tasks_md: String,
    archived_md: String,
}

/// A store that keeps its boards in memory, as the texts their files would hold.
pub struct InMemoryStorage {
    boards: Vec<Board>,
    active: usize,
}

impl InMemoryStorage {
    /// The names of the boards, in the order they are kept.
    closed spec fn names(&self) -> Seq<Seq<char>> {
        Seq::new(self.boards@.len(), |i: int| self.boards@[i].name@)
    }

    /// The boards are kept in the order of their names, and the active one is
    /// among them.
    #[verifier::type_invariant]
    closed spec fn well_formed(&self) -> bool {
        &&& names_sorted(self.names())
        &&& self.active < self.boards@.len()
    }

    /// There is a board of the name.
    closed spec fn has(&self, n: Seq<char>) -> bool {
        exists|i: int| 0 <= i < self.boards@.len() && self.boards@[i].name@ == n
    }

    /// The board of the name (if there is one).
    closed spec fn board_named(&self, n: Seq<char>) -> Board {
        self.boards@[self.index_named(n)]
    }

    /// The position of the board of the name (if there is one).
    closed spec fn index_named(&self, n: Seq<char>) -> int {
        choose|i: int| 0 <= i < self.boards@.len() && self.boards@[i].name@ == n
    }

    /// A store with one board, `tasks`, empty and active.
    pub fn new() -> (r: Self)
        ensures
            r.board() == seq!['t', 'a', 's', 'k', 's'],
            r.boards() == seq![seq!['t', 'a', 's', 'k', 's']],
            r.path() is None,
            r.dependable(),
            forall|n: Seq<char>| #[trigger] r.tasks_of(n) == Ok::<Seq<TaskView>, Seq<char>>(Seq::empty()),
            forall|n: Seq<char>| #[trigger] r.archive_of(n) == Ok::<Seq<TaskView>, Seq<char>>(Seq::empty()),
    {
        let name = String::from_str("tasks");
        proof {
            reveal_strlit("tasks");
            assert(name@ =~= seq!['t', 'a', 's', 'k', 's']);
            law_empty_text_reads_empty(1);
            law_empty_text_reads_empty(archive_start_id());
        }
        let mut boards: Vec<Board> = Vec::new();
        boards.push(Board { name, tasks_md: String::new(), archived_md: String::new() });
        proof {
            let g = InMemoryStorage { boards, active: 0 };
            assert(g.names() =~= seq![seq!['t', 'a', 's', 'k', 's']]);
        }
        let r = InMemoryStorage { boards, active: 0 };
        assert(r.names() =~= seq![seq!['t', 'a', 's', 'k', 's']]);
        assert forall|n: Seq<char>| r.has(n) implies r.board_named(n) == r.boards@[0] by {
        }
        r
    }
}

/// In names kept in order, a name is at one place only.
proof fn lemma_name_at(names: Seq<Seq<char>>, i: int, j: int)
    requires
        names_sorted(names),
        0 <= i < names.len(),
        0 <= j < names.len(),
        names[i] == names[j],
    ensures
        i == j,
{
    if i < j {
        lemma_lex_irreflexive(names[i]);
    } else if j < i {
        lemma_lex_irreflexive(names[i]);
    }
}

impl InMemoryStorage {
    /// The board at `i` is the board of its name.
    proof fn lemma_board_at(&self, i: int)
        requires
            names_sorted(self.names()),
            0 <= i < self.boards@.len(),
        ensures
            self.has(self.boards@[i].name@),
            self.board_named(self.boards@[i].name@) == self.boards@[i],
    {
        let n = self.boards@[i].name@;
        assert(self.names()[i] == n);
        assert(self.has(n));
        let j = self.index_named(n);
        assert(self.names()[j] == n);
        lemma_name_at(self.names(), i, j);
    }

    /// The position of the board of the name, or where a board of that name would
    /// go.
    fn find_board(&self, name: &str) -> (r: (usize, bool))
        ensures
            r.0 <= self.boards.len(),
            r.1 ==> r.0 < self.boards.len() && self.boards@[r.0 as int].name@ == name@,
            !r.1 ==> forall|j: int| 0 <= j < r.0 ==> lex_lt(#[trigger] self.names()[j], name@),
            !r.1 ==> forall|j: int| r.0 <= j < self.boards.len() ==> lex_lt(name@, #[trigger] self.names()[j]),
    {
        proof {
            use_type_invariant(self);
        }
        let mut i: usize = 0;
        while i < self.boards.len()
            invariant
                i <= self.boards.len(),
                names_sorted(self.names()),
                forall|j: int| 0 <= j < i ==> lex_lt(#[trigger] self.names()[j], name@),
            decreases self.boards.len() - i,
        {
            let here = self.boards[i].name.as_str();
            let before = name_less(here, name);
            let after = name_less(name, here);
            if !before && !after {
                proof {
                    if here@ != name@ {
                        lemma_lex_total(here@, name@);
                    }
                }
                return (i, true);
            }
            if after {
                assert forall|j: int| i <= j < self.boards.len() implies lex_lt(name@, #[trigger] self.names()[j]) by {
                    if j > i {
                        assert(lex_lt(self.names()[i as int], self.names()[j]));
                        lemma_lex_trans(name@, self.names()[i as int], self.names()[j]);
                    }
                }
                return (i, false);
            }
            i += 1;
        }
        (i, false)
    }
}

impl Default for InMemoryStorage {
    /// The store `new` makes.
    fn default() -> (r: Self)
        ensures
            r.board() == seq!['t', 'a', 's', 'k', 's'],
            r.boards() == seq![seq!['t', 'a', 's', 'k', 's']],
            r.path() is None,
            r.dependable(),
            forall|n: Seq<char>| #[trigger] r.tasks_of(n) == Ok::<Seq<TaskView>, Seq<char>>(Seq::empty()),
            forall|n: Seq<char>| #[trigger] r.archive_of(n) == Ok::<Seq<TaskView>, Seq<char>>(Seq::empty()),
    {
        Self::new()
    }
}

impl TaskStorage for InMemoryStorage {
    closed spec fn tasks_of(&self, board: Seq<char>) -> Result<Seq<TaskView>, Seq<char>> {
        if self.has(board) {
            task_text_reading(self.board_named(board).tasks_md@)
        } else {
            Ok(Seq::empty())
        }
    }

    closed spec fn archive_of(&self, board: Seq<char>) -> Result<Seq<TaskView>, Seq<char>> {
        if self.has(board) {
            archive_text_reading(self.board_named(board).archived_md@)
        } else {
            Ok(Seq::empty())
        }
    }

    closed spec fn board(&self) -> Seq<char> {
        self.boards@[self.active as int].name@
    }

    closed spec fn boards(&self) -> Seq<Seq<char>> {
        self.names()
    }

    closed spec fn path(&self) -> Option<Seq<char>> {
        None
    }

    open spec fn dependable(&self) -> bool {
        true
    }

    fn read_tasks(&self) -> (r: Result<Vec<TaskItem>, FiniError>) {
        proof {
            use_type_invariant(self);
            self.lemma_board_at(self.active as int);
        }
        let text = self.boards[self.active].tasks_md.as_str();
        if text.unicode_len() > usize::MAX - 2 {
            return Err(FiniError::Store(String::from_str("the task list is too long to read")));
        }
        proof {
            lemma_read_tasks_dates(text@, 1);
        }
        proof {
            crate::text::lemma_split_len(text@);
        }
        parse_markdown_tasks(text, 1)
    }

    fn read_archived(&self) -> (r: Result<Vec<TaskItem>, FiniError>) {
        proof {
            use_type_invariant(self);
            self.lemma_board_at(self.active as int);
        }
        let text = self.boards[self.active].archived_md.as_str();
        if text.unicode_len() > usize::MAX - 100001 {
            return Err(FiniError::Store(String::from_str("the archive is too long to read")));
        }
        proof {
            lemma_read_archive_dates(text@, archive_start_id());
        }
        proof {
            crate::text::lemma_split_len(text@);
        }
        parse_markdown_archive_with_start_id(text, 100000)
    }

    fn write_tasks(&mut self, tasks: Vec<TaskItem>) -> (r: Result<(), FiniError>) {
        proof {
            use_type_invariant(&*self);
        }
        let ghost before = *self;
        let md = tasks_as_markdown(tasks);
        let i = self.active;
        let name = self.boards[i].name.clone();
        let archived_md = self.boards[i].archived_md.clone();
        let boards = rebuilt(&self.boards, i, Board { name, tasks_md: md, archived_md }, true);
        proof {
            let g = InMemoryStorage { boards, active: i };
            assert(g.names() =~= before.names());
        }
        *self = InMemoryStorage { boards, active: i };
        proof {
            assert(self.names() =~= before.names());
            frame_one_board(before, *self, i as int);
        }
        Ok(())
    }

    fn write_archived(&mut self, tasks: Vec<TaskItem>) -> (r: Result<(), FiniError>) {
        proof {
            use_type_invariant(&*self);
        }
        let ghost before = *self;
        let md = archived_tasks_as_markdown(tasks, LinkFormat::Markdown);
        proof {
            let ghost texts = choose|texts: Seq<Seq<char>>| #[trigger] crate::markdown::archive_text_is(
                stable_sort(SortKey::ByDate, views(tasks@)), LinkFormat::Markdown, texts, md@);
            lemma_markdown_archive_text(stable_sort(SortKey::ByDate, views(tasks@)), texts, md@);
        }
        let i = self.active;
        let name = self.boards[i].name.clone();
        let tasks_md = self.boards[i].tasks_md.clone();
        let boards = rebuilt(&self.boards, i, Board { name, tasks_md, archived_md: md }, true);
        proof {
            let g = InMemoryStorage { boards, active: i };
            assert(g.names() =~= before.names());
        }
        *self = InMemoryStorage { boards, active: i };
        proof {
            assert(self.names() =~= before.names());
            frame_one_board(before, *self, i as int);
        }
        Ok(())
    }

    fn active_board(&self) -> (r: String) {
        proof {
            use_type_invariant(self);
            assert(self.names()[self.active as int] == self.board());
        }
        self.boards[self.active].name.clone()
    }

    fn list_boards(&self) -> (r: Result<Vec<String>, FiniError>) {
        proof {
            use_type_invariant(self);
        }
        let mut v: Vec<String> = Vec::new();
        let mut i: usize = 0;
        while i < self.boards.len()
            invariant
                i <= self.boards.len(),
                texts(v@) == self.names().take(i as int),
            decreases self.boards.len() - i,
        {
            let ghost prev = v@;
            let c = self.boards[i].name.clone();
            assert(c@ == self.boards@[i as int].name@);
            v.push(c);
            assert(self.names()[i as int] == self.boards@[i as int].name@);
            assert(v@ == prev.push(c));
            assert(texts(v@) =~= texts(prev).push(c@));
            assert(texts(v@) =~= self.names().take(i + 1));
            i += 1;
        }
        assert(self.names().take(i as int) =~= self.names());
        Ok(v)
    }

    fn switch_board(&mut self, name: &str) -> (r: Result<(), FiniError>) {
        proof {
            use_type_invariant(&*self);
        }
        let ghost before = *self;
        let (i, found) = self.find_board(name);
        if found {
            let boards = rebuilt(&self.boards, 0, clone_board(&self.boards[0]), true);
            proof {
                assert(boards@ =~= before.boards@);
                let g = InMemoryStorage { boards, active: i };
                assert(g.names() =~= before.names());
            }
            *self = InMemoryStorage { boards, active: i };
            proof {
                assert(self.names() =~= before.names());
                assert(self.boards@ == before.boards@);
                assert(self.names()[i as int] == name@);
                assert(before.names().to_set().insert(name@) =~= before.names().to_set());
            }
        } else {
            let b = Board { name: String::from_str(name), tasks_md: String::new(), archived_md: String::new() };
            let ghost bv = b;
            let boards = rebuilt(&self.boards, i, b, false);
            proof {
                let ghost after = InMemoryStorage { boards, active: i };
                lemma_insert_board(before, after, i as int, bv);
            }
            *self = InMemoryStorage { boards, active: i };
        }
        proof {
            if !before.boards().contains(name@) && before.has(name@) {
                let j = choose|j: int| 0 <= j < before.boards@.len() && before.boards@[j].name@ == name@;
                assert(before.names()[j] == name@);
            }
        }
        Ok(())
    }

    fn active_board_path(&self) -> (r: Option<String>) {
        None
    }
}

fn clone_board(b: &Board) -> (r: Board)
    ensures
        r == *b,
{
    Board { name: b.name.clone(), tasks_md: b.tasks_md.clone(), archived_md: b.archived_md.clone() }
}

/// The boards with `x` in place of the board at `i` (`replace`), or with `x` put in
/// at `i`.
fn rebuilt(boards: &Vec<Board>, i: usize, x: Board, replace: bool) -> (r: Vec<Board>)
    requires
        i <= boards.len(),
        replace ==> i < boards.len(),
    ensures
        replace ==> r@ == boards@.update(i as int, x),
        !replace ==> r@ == boards@.insert(i as int, x),
{
    let mut r: Vec<Board> = Vec::new();
    let mut j: usize = 0;
    while j < i
        invariant
            j <= i <= boards.len(),
            r@ == boards@.take(j as int),
        decreases i - j,
    {
        r.push(clone_board(&boards[j]));
        assert(r@ =~= boards@.take(j + 1));
        j += 1;
    }
    r.push(x);
    let mut k: usize = if replace { i + 1 } else { i };
    let ghost base = r@;
    while k < boards.len()
        invariant
            i <= k <= boards.len(),
            replace ==> i < k,
            base == boards@.take(i as int).push(x),
            r@ == base + boards@.subrange(if replace { i + 1 } else { i as int }, k as int),
        decreases boards.len() - k,
    {
        r.push(clone_board(&boards[k]));
        assert(r@ =~= base + boards@.subrange(if replace { i + 1 } else { i as int }, k + 1));
        k += 1;
    }
    assert(replace ==> r@ =~= boards@.update(i as int, x));
    assert(!replace ==> r@ =~= boards@.insert(i as int, x));
    r
}

/// Changing the texts of the board at `i` (and keeping its name) changes what
/// reads from that board only.
proof fn frame_one_board(a: InMemoryStorage, b: InMemoryStorage, i: int)
    requires
        names_sorted(a.names()),
        b.names() == a.names(),
        0 <= i < a.boards@.len(),
        b.boards@.len() == a.boards@.len(),
        forall|j: int| 0 <= j < a.boards@.len() && j != i ==> b.boards@[j] == a.boards@[j],
    ensures
        forall|n: Seq<char>| b.has(n) == a.has(n),
        forall|n: Seq<char>| n != a.boards@[i].name@ && a.has(n) ==> b.board_named(n) == a.board_named(n),
        a.has(a.boards@[i].name@) && b.board_named(a.boards@[i].name@) == b.boards@[i],
        a.board_named(a.boards@[i].name@) == a.boards@[i],
{
    assert forall|n: Seq<char>| b.has(n) == a.has(n) by {
        if a.has(n) {
            let j = choose|j: int| 0 <= j < a.boards@.len() && a.boards@[j].name@ == n;
            assert(a.names()[j] == n);
            assert(b.names()[j] == n);
        }
        if b.has(n) {
            let j = choose|j: int| 0 <= j < b.boards@.len() && b.boards@[j].name@ == n;
            assert(b.names()[j] == n);
            assert(a.names()[j] == n);
        }
    }
    assert forall|n: Seq<char>| n != a.boards@[i].name@ && a.has(n) implies b.board_named(n) == a.board_named(n) by {
        let j = a.index_named(n);
        assert(b.has(n));
        let k = b.index_named(n);
        assert(a.names()[j] == n);
        assert(b.names()[k] == n);
        lemma_name_at(a.names(), j, k);
        assert(a.names()[i] == a.boards@[i].name@);
    }
    a.lemma_board_at(i);
    b.lemma_board_at(i);
    assert(b.names()[i] == a.names()[i]);
}

/// Adding an empty board of a new name at its place keeps the boards in order,
/// adds the name, and changes what reads from no board.
proof fn lemma_insert_board(a: InMemoryStorage, b: InMemoryStorage, i: int, x: Board)
    requires
        names_sorted(a.names()),
        0 <= i <= a.boards@.len(),
        b.boards@ == a.boards@.insert(i, x),
        x.tasks_md@ == Seq::<char>::empty(),
        x.archived_md@ == Seq::<char>::empty(),
        forall|j: int| 0 <= j < i ==> lex_lt(#[trigger] a.names()[j], x.name@),
        forall|j: int| i <= j < a.boards@.len() ==> lex_lt(x.name@, #[trigger] a.names()[j]),
    ensures
        names_sorted(b.names()),
        b.names() == a.names().insert(i, x.name@),
        b.names().to_set() == a.names().to_set().insert(x.name@),
        forall|n: Seq<char>| #[trigger] b.tasks_of(n) == a.tasks_of(n),
        forall|n: Seq<char>| #[trigger] b.archive_of(n) == a.archive_of(n),
        b.boards@[i].name@ == x.name@,
{
    let na = a.names();
    let nb = b.names();
    assert(nb =~= na.insert(i, x.name@));
    assert forall|p: int, q: int| 0 <= p < q < nb.len() implies lex_lt(#[trigger] nb[p], #[trigger] nb[q]) by {
        if q < i {
            assert(nb[p] == na[p] && nb[q] == na[q]);
        } else if q == i {
            assert(nb[p] == na[p]);
        } else if p == i {
            assert(nb[q] == na[q - 1]);
        } else if p < i {
            assert(nb[p] == na[p] && nb[q] == na[q - 1]);
        } else {
            assert(nb[p] == na[p - 1] && nb[q] == na[q - 1]);
        }
    }
    assert forall|j: int| 0 <= j < na.len() implies na[j] != x.name@ by {
        if j < i {
            lemma_lex_irreflexive(x.name@);
        } else {
            lemma_lex_irreflexive(x.name@);
        }
    }
    assert(!a.has(x.name@)) by {
        if a.has(x.name@) {
            let j = choose|j: int| 0 <= j < a.boards@.len() && a.boards@[j].name@ == x.name@;
            assert(na[j] == x.name@);
        }
    }
    assert(nb.to_set() =~= na.to_set().insert(x.name@)) by {
        assert forall|n: Seq<char>| nb.to_set().contains(n) <==> na.to_set().insert(x.name@).contains(n) by {
            if nb.contains(n) {
                let k = choose|k: int| 0 <= k < nb.len() && nb[k] == n;
                if k < i {
                    assert(na[k] == n);
                } else if k > i {
                    assert(na[k - 1] == n);
                }
            }
            if na.contains(n) {
                let k = choose|k: int| 0 <= k < na.len() && na[k] == n;
                if k < i {
                    assert(nb[k] == n);
                } else {
                    assert(nb[k + 1] == n);
                }
            }
            if n == x.name@ {
                assert(nb[i] == n);
            }
        }
    }
    b.lemma_board_at(i);
    law_empty_text_reads_empty(1);
    law_empty_text_reads_empty(archive_start_id());
    assert forall|n: Seq<char>| n != x.name@ implies b.has(n) == a.has(n) && (a.has(n) ==> b.board_named(n) == a.board_named(n)) by {
        if a.has(n) {
            let j = choose|j: int| 0 <= j < a.boards@.len() && a.boards@[j].name@ == n;
            a.lemma_board_at(j);
            let k = if j < i { j } else { j + 1 };
            assert(b.boards@[k] == a.boards@[j]);
            b.lemma_board_at(k);
        }
        if b.has(n) {
            let k = choose|k: int| 0 <= k < b.boards@.len() && b.boards@[k].name@ == n;
            assert(k != i);
            let j = if k < i { k } else { k - 1 };
            assert(b.boards@[k] == a.boards@[j]);
        }
    }
    assert forall|n: Seq<char>| #[trigger] b.tasks_of(n) == a.tasks_of(n) by {
        if n != x.name@ {
        }
    }
    assert forall|n: Seq<char>| #[trigger] b.archive_of(n) == a.archive_of(n) by {
        if n != x.name@ {
        }
    }
}

// ---------------------------------------------------------------------------
// Archive files by month

/// A year and a month: the archive of a board is kept in one file per month.
#[derive(Clone, Copy, Debug, PartialEq, Eq, Structural)]
pub struct YearMonth {
    pub year: i32,
    pub month: u32,
}

/// A year as `{:04}` writes it: four digits or more, zero-padded, after a `-` for
/// a year before 0 (the sign counting towards the four places).
pub open spec fn year_text(y: int) -> Seq<char> {
    if y >= 0 {
        padded_decimal(y as nat, 4)
    } else {
        seq!['-'] + padded_decimal((-y) as nat, 3)
    }
}

/// The name of the archive file of a month: `archived-YYYY-MM.md`.
pub open spec fn archive_file_name(ym: YearMonth) -> Seq<char> {
    seq!['a', 'r', 'c', 'h', 'i', 'v', 'e', 'd', '-'] + year_text(ym.year as int) + seq!['-']
        + padded_decimal(ym.month as nat, 2) + seq!['.', 'm', 'd']
}

/// Appends `n` in decimal, zero-padded to `width` digits.
fn push_padded(out: &mut String, n: u64, width: u64)
    ensures
        final(out)@ == old(out)@ + padded_decimal(n as nat, width as nat),
    decreases n, width,
{
    if width <= 1 {
        if n < 10 {
            push_char(out, digit(n as usize));
        } else {
            push_padded(out, n / 10, 1);
            push_char(out, digit((n % 10) as usize));
        }
    } else {
        push_padded(out, n / 10, width - 1);
        push_char(out, digit((n % 10) as usize));
    }
    assert(final(out)@ =~= old(out)@ + padded_decimal(n as nat, width as nat));
}

impl YearMonth {
    /// The name of the month's archive file (`archived-{:04}-{:02}.md`).
    pub fn get_archive_filename(&self) -> (r: String)
        ensures
            r@ == archive_file_name(*self),
    {
        let mut r = String::new();
        push_str(&mut r, "archived-");
        if self.year >= 0 {
            push_padded(&mut r, self.year as u64, 4);
        } else {
            push_char(&mut r, '-');
            let y: i64 = self.year as i64;
            push_padded(&mut r, (-y) as u64, 3);
        }
        push_char(&mut r, '-');
        push_padded(&mut r, self.month as u64, 2);
        push_str(&mut r, ".md");
        proof {
            reveal_strlit("archived-");
            reveal_strlit(".md");
        }
        assert(r@ =~= archive_file_name(*self));
        r
    }
}

/// The month of the task's date, if it has one.
pub open spec fn month_of(t: TaskView) -> Option<YearMonth> {
    match t.active_date {
        Some(d) => Some(YearMonth { year: d.year, month: d.month }),
        None => None,
    }
}

/// The tasks dated in the month, in their order.
pub open spec fn of_month(s: Seq<TaskView>, ym: YearMonth) -> Seq<TaskView> {
    s.filter(|t: TaskView| month_of(t) == Some(ym))
}

/// The months of the tasks with a date, each once, in the order they first come.
fn months_of(tasks: &Vec<TaskItem>) -> (r: Vec<YearMonth>)
    ensures
        forall|j: int, k: int| 0 <= j < k < r.len() ==> r@[j] != r@[k],
        forall|i: int| 0 <= i < tasks.len() ==> (#[trigger] month_of(tasks@[i]@) matches Some(m) ==> r@.contains(m)),
{
    let mut r: Vec<YearMonth> = Vec::new();
    let mut i: usize = 0;
    while i < tasks.len()
        invariant
            i <= tasks.len(),
            forall|j: int, k: int| 0 <= j < k < r.len() ==> r@[j] != r@[k],
            forall|p: int| 0 <= p < i ==> (#[trigger] month_of(tasks@[p]@) matches Some(m) ==> r@.contains(m)),
        decreases tasks.len() - i,
    {
        if let Some(d) = tasks[i].active_date {
            let ym = YearMonth { year: d.year, month: d.month };
            let mut found = false;
            let mut k: usize = 0;
            while k < r.len()
                invariant
                    k <= r.len(),
                    found ==> r@.contains(ym),
                    !found ==> forall|j: int| 0 <= j < k ==> r@[j] != ym,
                decreases r.len() - k,
            {
                if r[k].year == ym.year && r[k].month == ym.month {
                    found = true;
                    assert(r@[k as int] == ym);
                }
                k += 1;
            }
            if !found {
                let ghost before = r@;
                r.push(ym);
                assert(r@ == before.push(ym));
                assert(r@[before.len() as int] == ym);
                assert forall|p: int| 0 <= p < i implies (#[trigger] month_of(tasks@[p]@) matches Some(m) ==> r@.contains(m)) by {
                    if let Some(m) = month_of(tasks@[p]@) {
                        if before.contains(m) {
                            let q = choose|q: int| 0 <= q < before.len() && before[q] == m;
                            assert(r@[q] == m);
                        }
                    }
                }
            }
            assert(month_of(tasks@[i as int]@) == Some(ym));
        }
        i += 1;
    }
    r
}

/// The tasks dated in the month (copies), in their order.
fn tasks_of_month(tasks: &Vec<TaskItem>, ym: YearMonth) -> (r: Vec<TaskItem>)
    ensures
        views(r@) == of_month(views(tasks@), ym),
{
    let ghost vs = views(tasks@);
    let mut r: Vec<TaskItem> = Vec::new();
    let mut i: usize = 0;
    proof {
        reveal(Seq::filter);
        assert(vs.take(0) =~= Seq::<TaskView>::empty());
    }
    while i < tasks.len()
        invariant
            i <= tasks.len(),
            vs == views(tasks@),
            views(r@) == of_month(vs.take(i as int), ym),
        decreases tasks.len() - i,
    {
        assert(vs.take(i + 1).drop_last() =~= vs.take(i as int));
        assert(vs.take(i + 1).last() == tasks@[i as int]@);
        reveal(Seq::filter);
        let ghost before = views(r@);
        let keep = match tasks[i].active_date {
            Some(d) => d.year == ym.year && d.month == ym.month,
            None => false,
        };
        if keep {
            let t = tasks[i].clone();
            r.push(t);
            assert(views(r@) =~= before.push(t@));
        }
        i += 1;
    }
    assert(vs.take(tasks.len() as int) =~= vs);
    r
}

/// The tasks grouped by the month of their date, for the archive files: each month
/// once, in the order it first comes, with its tasks in their order. Tasks without
/// a date are in no group.
pub fn group_tasks_by_month(tasks: Vec<TaskItem>) -> (r: Vec<(YearMonth, Vec<TaskItem>)>)
    ensures
        forall|k: int| 0 <= k < r.len() ==> views((#[trigger] r@[k]).1@) == of_month(views(tasks@), r@[k].0),
        forall|j: int, k: int| 0 <= j < k < r.len() ==> r@[j].0 != r@[k].0,
        forall|i: int| 0 <= i < tasks.len() ==> (#[trigger] month_of(tasks@[i]@) matches Some(m)
            ==> exists|k: int| 0 <= k < r.len() && r@[k].0 == m),
{
    let months = months_of(&tasks);
    let mut r: Vec<(YearMonth, Vec<TaskItem>)> = Vec::new();
    let mut k: usize = 0;
    while k < months.len()
        invariant
            k <= months.len(),
            r.len() == k,
            forall|j: int| 0 <= j < k ==> (#[trigger] r@[j]).0 == months@[j],
            forall|j: int| 0 <= j < k ==> views((#[trigger] r@[j]).1@) == of_month(views(tasks@), r@[j].0),
        decreases months.len() - k,
    {
        let group = tasks_of_month(&tasks, months[k]);
        r.push((months[k], group));
        k += 1;
    }
    assert forall|i: int| 0 <= i < tasks.len() implies (#[trigger] month_of(tasks@[i]@) matches Some(m)
        ==> exists|k: int| 0 <= k < r.len() && r@[k].0 == m) by {
        if let Some(m) = month_of(tasks@[i]@) {
            assert(months@.contains(m));
            let q = choose|q: int| 0 <= q < months@.len() && months@[q] == m;
            assert(r@[q].0 == m);
        }
    }
    r
}

/// The pattern of the names of archive files: `^archived-\d{4}-\d{2}\.md$`.
pub open spec fn archive_name_pattern() -> Seq<char> {
    seq!['^', 'a', 'r', 'c', 'h', 'i', 'v', 'e', 'd', '-', '\\', 'd', '{', '4', '}', '-', '\\', 'd', '{', '2', '}',
        '\\', '.', 'm', 'd', '$']
}

/// Whether the regular expression `pattern` (as the `regex` crate reads it) matches
/// the text.
pub uninterp spec fn regex_matches(pattern: Seq<char>, text: Seq<char>) -> bool;

/// Matches the text against the pattern with `regex::Regex::new` and `is_match`:
/// `None` if the pattern is no regular expression. The outcome is named by
/// `regex_matches`. Stated beside it, from the crate's syntax: the archive-name
/// pattern compiles, and it matches every name `archived-YYYY-MM.md` with four and
/// two ASCII digits, so every archive file name of a year from 0 to 9999.
#[verifier::external_body]
fn regex_is_match(pattern: &str, text: &str) -> (r: Option<bool>)
    ensures
        r matches Some(b) ==> b == regex_matches(pattern@, text@),
        pattern@ == archive_name_pattern() ==> r is Some,
        pattern@ == archive_name_pattern() && (exists|ym: YearMonth|
            0 <= ym.year <= 9999 && 1 <= ym.month <= 12 && #[trigger] archive_file_name(ym) == text@) ==> r == Some(true),
{
    match regex::Regex::new(pattern) {
        Ok(re) => Some(re.is_match(text)),
        Err(_) => None,
    }
}

/// Whether the file name is that of an archive file (`archived-YYYY-MM.md`).
pub fn is_archive_file_name(name: &str) -> (r: bool)
    ensures
        r == regex_matches(archive_name_pattern(), name@),
        (exists|ym: YearMonth| 0 <= ym.year <= 9999 && 1 <= ym.month <= 12 && #[trigger] archive_file_name(ym) == name@) ==> r,
{
    let pattern = "^archived-\\d{4}-\\d{2}\\.md$";
    proof {
        reveal_strlit("^archived-\\d{4}-\\d{2}\\.md$");
        assert(pattern@ =~= archive_name_pattern());
    }
    match regex_is_match(pattern, name) {
        Some(b) => b,
        None => false,
    }
}

// ---------------------------------------------------------------------------
// A store in files: what its files hold

/// The id after the tasks read from a file: one more than the last one's, or the
/// same id if the file held none.
pub open spec fn id_after(first: Seq<TaskView>, start: nat) -> nat {
    if first.len() == 0 {
        start
    } else {
        first.last().id + 1
    }
}

/// `a` before what `r` holds, if it holds tasks.
pub open spec fn prepend(a: Seq<TaskView>, r: Result<Seq<TaskView>, Seq<char>>) -> Result<Seq<TaskView>, Seq<char>> {
    match r {
        Ok(x) => Ok(a + x),
        Err(e) => Err(e),
    }
}

/// The archived tasks that archive files hold, read one file after the other from
/// the file `i` on, ids counted on from `start` across the files (each file goes on
/// from the id after the last task of the file before it).
pub open spec fn archives_from(texts: Seq<Seq<char>>, i: int, start: nat) -> Result<Seq<TaskView>, Seq<char>>
    decreases texts.len() - i,
{
    if i < 0 || i >= texts.len() {
        Ok(Seq::empty())
    } else {
        match parse_archive_result(texts[i], start) {
            Err(e) => Err(e),
            Ok(first) => prepend(first, archives_from(texts, i + 1, id_after(first, start))),
        }
    }
}

/// Reads archive files one after the other, given their texts in order: their
/// archived tasks, ids counted from 100000 across the files. Fails on a date header
/// that is no date (or if the ids would run past the largest `usize`).
pub fn read_archive_texts(texts: &Vec<String>) -> (r: Result<Vec<TaskItem>, FiniError>)
    ensures
        r matches Ok(v) ==> archives_from(crate::util::texts(texts@), 0, archive_start_id()) == Ok::<Seq<TaskView>, Seq<char>>(views(v@)),
        archives_from(crate::util::texts(texts@), 0, archive_start_id()) is Err ==> r is Err,
        r matches Err(e) ==> read_error(e),
        r matches Err(FiniError::InvalidDate(t)) ==> archives_from(crate::util::texts(texts@), 0, archive_start_id())
            == Err::<Seq<TaskView>, Seq<char>>(t@),
{
    let ghost all = crate::util::texts(texts@);
    let mut acc: Vec<TaskItem> = Vec::new();
    let mut next: usize = 100000;
    let mut i: usize = 0;
    assert(prepend(Seq::<TaskView>::empty(), archives_from(all, 0, archive_start_id())) =~~= archives_from(all, 0, archive_start_id()));
    while i < texts.len()
        invariant
            i <= texts.len(),
            all == crate::util::texts(texts@),
            archives_from(all, 0, archive_start_id()) == prepend(views(acc@), archives_from(all, i as int, next as nat)),
        decreases texts.len() - i,
    {
        let text = texts[i].as_str();
        assert(all[i as int] == text@);
        let n = text.unicode_len();
        if next >= usize::MAX - 1 || n > usize::MAX - 1 - next {
            return Err(FiniError::Store(crate::util::lit_string("the archive is too long to read")));
        }
        let ghost rest = archives_from(all, i + 1, 0);
        proof {
            crate::text::lemma_split_len(text@);
        }
        let mut tasks = match parse_markdown_archive_with_start_id(text, next) {
            Ok(t) => t,
            Err(e) => {
                proof {
                    assert(archives_from(all, i as int, next as nat) is Err);
                }
                return Err(e);
            },
        };
        let ghost first = views(tasks@);
        let after = if tasks.len() == 0 {
            next
        } else {
            let last = tasks[tasks.len() - 1].id;
            if last == usize::MAX {
                return Err(FiniError::Store(crate::util::lit_string("the archive is too long to read")));
            }
            last + 1
        };
        assert(after == id_after(first, next as nat));
        let ghost before = views(acc@);
        acc.append(&mut tasks);
        assert(views(acc@) =~= before + first);
        proof {
            let x = archives_from(all, i + 1, after as nat);
            assert(archives_from(all, i as int, next as nat) == prepend(first, x));
            match x {
                Ok(y) => {
                    assert(before + (first + y) =~= (before + first) + y);
                },
                Err(_) => {},
            }
        }
        next = after;
        i += 1;
    }
    assert(prepend(views(acc@), archives_from(all, i as int, next as nat)) =~~= Ok::<Seq<TaskView>, Seq<char>>(views(acc@)));
    Ok(acc)
}

/// `files` are, for each of the `months` in turn, the name of the month's archive
/// file and its text, the tasks of `s` of that month as an archive file; the months
/// are those of the dated tasks of `s`, each once.
pub open spec fn files_for_months(s: Seq<TaskView>, files: Seq<(String, String)>, months: Seq<YearMonth>) -> bool {
    &&& months.len() == files.len()
    &&& forall|j: int, k: int| 0 <= j < k < months.len() ==> months[j] != months[k]
    &&& forall|i: int| 0 <= i < s.len() ==> (#[trigger] month_of(s[i]) matches Some(m) ==> months.contains(m))
    &&& forall|k: int| 0 <= k < files.len() ==> (#[trigger] files[k]).0@ == archive_file_name(months[k])
        && files[k].1@ == archive_file_text(of_month(s, months[k]))
}

/// The files an archive is written to: for each month of the tasks (in the order
/// it first comes), the file's name and its text, the month's tasks as an archive
/// file. Tasks without a date are in no file.
pub fn archive_files(tasks: Vec<TaskItem>) -> (r: Vec<(String, String)>)
    requires
        dates_valid(views(tasks@)),
    ensures
        exists|months: Seq<YearMonth>| #[trigger] files_for_months(views(tasks@), r@, months),
{
    let groups = group_tasks_by_month(tasks);
    let ghost months = Seq::new(groups@.len(), |k: int| groups@[k].0);
    let mut r: Vec<(String, String)> = Vec::new();
    let mut k: usize = 0;
    let mut rest = groups;
    let ghost gs = rest@;
    let total = rest.len();
    assert(gs.len() <= usize::MAX);
    while rest.len() > 0
        invariant
            k <= gs.len(),
            gs.len() <= usize::MAX,
            forall|j: int, q: int| 0 <= j < q < gs.len() ==> gs[j].0 != gs[q].0,
            forall|i: int| 0 <= i < tasks.len() ==> (#[trigger] month_of(tasks@[i]@) matches Some(m)
                ==> exists|q: int| 0 <= q < gs.len() && gs[q].0 == m),
            rest@ == gs.skip(k as int),
            r.len() == k,
            months == Seq::new(gs.len(), |q: int| gs[q].0),
            forall|q: int| 0 <= q < gs.len() ==> views((#[trigger] gs[q]).1@) == of_month(views(tasks@), gs[q].0),
            dates_valid(views(tasks@)),
            forall|q: int| 0 <= q < k ==> (#[trigger] r@[q]).0@ == archive_file_name(months[q])
                && r@[q].1@ == archive_file_text(of_month(views(tasks@), months[q])),
        decreases gs.len() - k,
    {
        let (ym, month_tasks) = rest.remove(0);
        assert(gs.skip(k as int)[0] == gs[k as int]);
        assert(rest@ =~= gs.skip(k + 1));
        let ghost mv = views(month_tasks@);
        assert(mv == of_month(views(tasks@), ym));
        proof {
            crate::util::lemma_filter_members(views(tasks@), |t: TaskView| month_of(t) == Some(ym));
            assert forall|q: int| 0 <= q < mv.len() implies crate::markdown::dated_ok(#[trigger] mv[q]) by {
                let j = choose|j: int| 0 <= j < views(tasks@).len() && views(tasks@)[j] == mv[q];
                assert(crate::markdown::date_ok(views(tasks@)[j]));
                views(tasks@).lemma_filter_pred(|t: TaskView| month_of(t) == Some(ym), q);
            }
        }
        let name = ym.get_archive_filename();
        let text = archived_tasks_as_markdown(month_tasks, LinkFormat::Markdown);
        proof {
            let texts = choose|texts: Seq<Seq<char>>| #[trigger] crate::markdown::archive_text_is(
                stable_sort(SortKey::ByDate, mv), LinkFormat::Markdown, texts, text@);
            lemma_markdown_archive_text(stable_sort(SortKey::ByDate, mv), texts, text@);
        }
        r.push((name, text));
        k += 1;
    }
    assert(k == gs.len());
    proof {
        let gp = gs;
        assert forall|i: int| 0 <= i < tasks.len() implies (#[trigger] month_of(tasks@[i]@) matches Some(m) ==> months.contains(m)) by {
            if let Some(m) = month_of(tasks@[i]@) {
                let q = choose|q: int| 0 <= q < gp.len() && gp[q].0 == m;
                assert(months[q] == m);
            }
        }
        assert(forall|j: int, q: int| 0 <= j < q < months.len() ==> months[j] != months[q]);
        assert forall|i: int| 0 <= i < views(tasks@).len() implies (#[trigger] month_of(views(tasks@)[i]) matches Some(m) ==> months.contains(m)) by {
            assert(views(tasks@)[i] == tasks@[i]@);
            if let Some(m) = month_of(tasks@[i]@) {
                assert(months.contains(m));
            }
        }
        assert(files_for_months(views(tasks@), r@, months));
    }
    r
}

/// The names are in order: none comes before one that stands before it.
pub open spec fn names_ordered(names: Seq<Seq<char>>) -> bool {
    forall|i: int, j: int| 0 <= i < j < names.len() ==> !lex_lt(#[trigger] names[j], #[trigger] names[i])
}

/// The boards' names as a list shows them: the names found, in the order of `str`;
/// `tasks` alone where none was found.
pub fn sorted_board_names(names: Vec<String>) -> (r: Vec<String>)
    ensures
        names.len() == 0 ==> texts(r@) == seq![seq!['t', 'a', 's', 'k', 's']],
        names.len() > 0 ==> texts(r@).to_multiset() == texts(names@).to_multiset(),
        names_ordered(texts(r@)),
{
    if names.len() == 0 {
        let mut r: Vec<String> = Vec::new();
        r.push(default_board_name());
        assert(texts(r@) =~~= seq![seq!['t', 'a', 's', 'k', 's']]);
        return r;
    }
    let mut r: Vec<String> = Vec::new();
    let mut k: usize = 0;
    assert(texts(names@).take(0) =~= texts(r@));
    while k < names.len()
        invariant
            k <= names.len(),
            texts(r@).to_multiset() == texts(names@).take(k as int).to_multiset(),
            names_ordered(texts(r@)),
        decreases names.len() - k,
    {
        let x = names[k].clone();
        let mut p: usize = 0;
        while p < r.len() && !name_less(x.as_str(), r[p].as_str())
            invariant
                p <= r.len(),
                forall|q: int| 0 <= q < p ==> !lex_lt(x@, #[trigger] texts(r@)[q]),
            decreases r.len() - p,
        {
            p += 1;
        }
        let ghost before = texts(r@);
        assert(p < before.len() ==> lex_lt(x@, before[p as int]));
        r.insert(p, x);
        proof {
            assert(texts(r@) =~= before.insert(p as int, x@));
            before.to_multiset_ensures();
            vstd::seq_lib::to_multiset_insert(before, p as int, x@);
            assert(texts(names@).take(k + 1) =~= texts(names@).take(k as int).push(x@));
            vstd::seq_lib::to_multiset_build(texts(names@).take(k as int), x@);
            let after = texts(r@);
            assert forall|i: int, j: int| 0 <= i < j < after.len() implies !lex_lt(#[trigger] after[j], #[trigger] after[i]) by {
                if j < p {
                } else if j == p {
                    assert(after[i] == before[i]);
                } else if i < p {
                    assert(after[j] == before[j - 1]);
                } else if i == p {
                    assert(after[j] == before[j - 1]);
                    if lex_lt(before[j - 1], x@) {
                        lemma_lex_trans(before[j - 1], x@, before[p as int]);
                        if j - 1 == p {
                            lemma_lex_irreflexive(before[p as int]);
                        }
                    }
                } else {
                    assert(after[j] == before[j - 1]);
                    assert(after[i] == before[i - 1]);
                }
            }
        }
        k += 1;
    }
    assert(texts(names@).take(k as int) =~= texts(names@));
    r
}

/// The name of the board a store starts on: the saved name, trimmed, if there is
/// one, else `tasks`.
pub fn saved_board_name(saved: Option<String>) -> (r: String)
    ensures
        r@ == match saved {
            Some(s) => crate::text::trim(s@),
            None => seq!['t', 'a', 's', 'k', 's'],
        },
{
    match saved {
        Some(s) => crate::util::trimmed(s.as_str()),
        None => default_board_name(),
    }
}

/// The name of the board there is when no other is chosen: `tasks`.
pub fn default_board_name() -> (r: String)
    ensures
        r@ == seq!['t', 'a', 's', 'k', 's'],
{
    let r = String::from_str("tasks");
    proof {
        reveal_strlit("tasks");
    }
    assert(r@ =~= seq!['t', 'a', 's', 'k', 's']);
    r
}

} // verus!
