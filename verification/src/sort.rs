//! Stable sorting of tasks by the keys the program orders them by.

use vstd::prelude::*;
use vstd::multiset::Multiset;
use crate::date::Date;
use crate::task_item::{Status, TaskItem, TaskView, views};

verus! {

/// The keys by which tasks are ordered.
#[derive(Clone, Copy, Debug, PartialEq, Eq, Structural)]
pub enum SortKey {
    /// By date, tasks without a date first.
    ByDate,
    /// Unfinished tasks before done ones; within those, starred tasks first, then
    /// tasks whose star is off, then tasks without a star.
    DoneThenStar,
    /// As `DoneThenStar`, then by date.
    DoneThenStarThenDate,
}

/// `a` comes no later than `b` when ordered by date, a missing date first.
pub open spec fn date_le(a: Option<Date>, b: Option<Date>) -> bool {
    match (a, b) {
        (None, _) => true,
        (Some(_), None) => false,
        (Some(x), Some(y)) => x.on_or_before(y),
    }
}

/// 1 for a done task, 0 for any other.
pub open spec fn done_rank(t: TaskView) -> int {
    if t.status == Status::Done { 1 } else { 0 }
}

/// The rank of the star when starred tasks come first: `Some(true)`, then
/// `Some(false)`, then `None` (the reverse of `Option<bool>`'s order).
pub open spec fn star_rank(t: TaskView) -> int {
    match t.star {
        Some(true) => 0,
        Some(false) => 1,
        None => 2,
    }
}

/// `a` may come before `b` under the key.
pub open spec fn key_le(k: SortKey, a: TaskView, b: TaskView) -> bool {
    match k {
        SortKey::ByDate => date_le(a.active_date, b.active_date),
        SortKey::DoneThenStar => done_rank(a) < done_rank(b) || (done_rank(a) == done_rank(b)
            && star_rank(a) <= star_rank(b)),
        SortKey::DoneThenStarThenDate => done_rank(a) < done_rank(b) || (done_rank(a) == done_rank(
            b,
        ) && (star_rank(a) < star_rank(b) || (star_rank(a) == star_rank(b) && date_le(
            a.active_date,
            b.active_date,
        )))),
    }
}

/// Where `x` goes in `s`: after the last element that may come before it.
pub open spec fn insert_pos(k: SortKey, s: Seq<TaskView>, x: TaskView) -> int
    decreases s.len(),
{
    if s.len() == 0 {
        0
    } else if key_le(k, s.last(), x) {
        s.len() as int
    } else {
        insert_pos(k, s.drop_last(), x)
    }
}

/// `s` with `x` put in after the last element that may come before it.
pub open spec fn sorted_insert(k: SortKey, s: Seq<TaskView>, x: TaskView) -> Seq<TaskView> {
    s.insert(insert_pos(k, s, x), x)
}

/// The tasks ordered by the key, tasks with equal keys in the order they came in: each
/// task in turn is put in after all tasks before it whose key is not greater.
pub open spec fn stable_sort(k: SortKey, s: Seq<TaskView>) -> Seq<TaskView>
    decreases s.len(),
{
    if s.len() == 0 {
        s
    } else {
        sorted_insert(k, stable_sort(k, s.drop_last()), s.last())
    }
}

fn date_le_exec(a: Option<Date>, b: Option<Date>) -> (r: bool)
    ensures
        r == date_le(a, b),
{
    match (a, b) {
        (None, _) => true,
        (Some(_), None) => false,
        (Some(x), Some(y)) => x.is_on_or_before(&y),
    }
}

fn done_rank_exec(t: &TaskItem) -> (r: u8)
    ensures
        r == done_rank(t@),
{
    if t.status == Status::Done { 1 } else { 0 }
}

fn star_rank_exec(t: &TaskItem) -> (r: u8)
    ensures
        r == star_rank(t@),
{
    match t.star {
        Some(true) => 0,
        Some(false) => 1,
        None => 2,
    }
}

/// Whether `a` may come before `b` under the key.
pub fn key_le_exec(k: SortKey, a: &TaskItem, b: &TaskItem) -> (r: bool)
    ensures
        r == key_le(k, a@, b@),
{
    match k {
        SortKey::ByDate => date_le_exec(a.active_date, b.active_date),
        SortKey::DoneThenStar => {
            let (da, db) = (done_rank_exec(a), done_rank_exec(b));
            da < db || (da == db && star_rank_exec(a) <= star_rank_exec(b))
        },
        SortKey::DoneThenStarThenDate => {
            let (da, db) = (done_rank_exec(a), done_rank_exec(b));
            let (sa, sb) = (star_rank_exec(a), star_rank_exec(b));
            da < db || (da == db && (sa < sb || (sa == sb && date_le_exec(
                a.active_date,
                b.active_date,
            ))))
        },
    }
}

/// Sorts the tasks by the key, keeping tasks with equal keys in their order (as
/// `sort_by_key` does).
pub fn sort_tasks(tasks: Vec<TaskItem>, k: SortKey) -> (r: Vec<TaskItem>)
    ensures
        views(r@) == stable_sort(k, views(tasks@)),
        r@.to_multiset() =~= tasks@.to_multiset(),
{
    let ghost input = tasks@;
    let mut r: Vec<TaskItem> = Vec::new();
    proof {
        broadcast use vstd::seq_lib::group_to_multiset_ensures;
        assert(input.take(0) =~= Seq::<TaskItem>::empty());
        assert(r@ =~= Seq::<TaskItem>::empty());
    }
    for x in it: tasks
        invariant
            it.seq() == input,
            views(r@) == stable_sort(k, views(input.take(it.index() as int))),
            r@.to_multiset() =~= input.take(it.index() as int).to_multiset(),
    {
        broadcast use vstd::seq_lib::group_to_multiset_ensures;
        let ghost i = it.index();
        let ghost before = r@;
        let ghost vb = views(before);
        assert(views(input.take(i + 1)).drop_last() =~= views(input.take(i as int)));
        assert(views(input.take(i + 1)).last() == x@);
        let mut p = r.len();
        assert(vb.take(p as int) =~= vb);
        while p > 0 && !key_le_exec(k, &r[p - 1], &x)
            invariant
                p <= r.len(),
                r@ == before,
                vb == views(before),
                insert_pos(k, vb, x@) == insert_pos(k, vb.take(p as int), x@),
            decreases p,
        {
            assert(vb.take(p as int).drop_last() =~= vb.take(p - 1));
            p -= 1;
        }
        proof {
            if p > 0 {
                assert(vb.take(p as int).last() == vb[p - 1]);
            }
            assert(vb.take(p as int).len() == p);
        }
        r.insert(p, x);
        assert(views(r@) =~= vb.insert(p as int, x@));
        assert(r@.remove(p as int) =~= before);
        assert(input.take(i + 1) =~= input.take(i as int).push(x));
    }
    assert(input.take(input.len() as int) =~= input);
    r
}


/// Every earlier task may come before every later one.
pub open spec fn sorted_by_key(k: SortKey, s: Seq<TaskView>) -> bool {
    forall|i: int, j: int| 0 <= i < j < s.len() ==> key_le(k, #[trigger] s[i], #[trigger] s[j])
}

/// `a` and `b` have the same key.
pub open spec fn same_key(k: SortKey, a: TaskView, b: TaskView) -> bool {
    key_le(k, a, b) && key_le(k, b, a)
}

/// The tasks of `s` whose key equals that of `x`, in their order.
pub open spec fn key_class(k: SortKey, s: Seq<TaskView>, x: TaskView) -> Seq<TaskView> {
    s.filter(|z: TaskView| same_key(k, z, x))
}

proof fn lemma_key_total(k: SortKey, a: TaskView, b: TaskView)
    ensures
        key_le(k, a, b) || key_le(k, b, a),
{
}

proof fn lemma_key_trans(k: SortKey, a: TaskView, b: TaskView, c: TaskView)
    requires
        key_le(k, a, b),
        key_le(k, b, c),
    ensures
        key_le(k, a, c),
{
}

proof fn lemma_insert_pos(k: SortKey, s: Seq<TaskView>, x: TaskView)
    ensures
        0 <= insert_pos(k, s, x) <= s.len(),
        insert_pos(k, s, x) > 0 ==> key_le(k, s[insert_pos(k, s, x) - 1], x),
        forall|i: int| insert_pos(k, s, x) <= i < s.len() ==> !key_le(k, #[trigger] s[i], x),
    decreases s.len(),
{
    if s.len() > 0 && !key_le(k, s.last(), x) {
        lemma_insert_pos(k, s.drop_last(), x);
        assert forall|i: int| insert_pos(k, s, x) <= i < s.len() implies !key_le(k, #[trigger] s[i], x) by {
            if i < s.len() - 1 {
                assert(s.drop_last()[i] == s[i]);
            }
        }
    }
}

proof fn lemma_insert_sorted(k: SortKey, s: Seq<TaskView>, x: TaskView)
    requires
        sorted_by_key(k, s),
    ensures
        sorted_by_key(k, sorted_insert(k, s, x)),
{
    lemma_insert_pos(k, s, x);
    let p = insert_pos(k, s, x);
    let t = sorted_insert(k, s, x);
    assert forall|i: int, j: int| 0 <= i < j < t.len() implies key_le(k, #[trigger] t[i], #[trigger] t[j]) by {
        if j < p {
        } else if j == p {
            if i < p - 1 {
                lemma_key_trans(k, s[i], s[p - 1], x);
            }
        } else if i < p {
            lemma_key_total(k, s[j - 1], x);
            if i < p - 1 {
                lemma_key_trans(k, s[i], s[p - 1], x);
            }
            lemma_key_trans(k, s[i], x, s[j - 1]);
        } else if i == p {
            lemma_key_total(k, s[j - 1], x);
        } else {
        }
    }
}

/// Law: a stable sort orders the tasks by the key.
pub proof fn lemma_stable_sort_sorted(k: SortKey, s: Seq<TaskView>)
    ensures
        sorted_by_key(k, stable_sort(k, s)),
    decreases s.len(),
{
    if s.len() > 0 {
        lemma_stable_sort_sorted(k, s.drop_last());
        lemma_insert_sorted(k, stable_sort(k, s.drop_last()), s.last());
    }
}

/// Law: a stable sort keeps every task, each as often as it was there.
pub proof fn lemma_stable_sort_permutes(k: SortKey, s: Seq<TaskView>)
    ensures
        stable_sort(k, s).to_multiset() =~= s.to_multiset(),
        stable_sort(k, s).len() == s.len(),
    decreases s.len(),
{
    broadcast use vstd::seq_lib::group_to_multiset_ensures;
    if s.len() > 0 {
        let r = stable_sort(k, s.drop_last());
        lemma_stable_sort_permutes(k, s.drop_last());
        lemma_insert_pos(k, r, s.last());
        let p = insert_pos(k, r, s.last());
        let t = r.insert(p, s.last());
        assert(t.remove(p) =~= r);
        assert(t[p] == s.last());
        assert(s.drop_last().push(s.last()) =~= s);
        assert(t.to_multiset() =~= r.to_multiset().insert(s.last()));
    }
}

/// Law: a stable sort keeps the order of tasks with equal keys: the tasks with the
/// key of any `x` come out in the order they went in.
pub proof fn lemma_stable_sort_stable(k: SortKey, s: Seq<TaskView>, x: TaskView)
    ensures
        key_class(k, stable_sort(k, s), x) == key_class(k, s, x),
    decreases s.len(),
{
    let f = |z: TaskView| same_key(k, z, x);
    if s.len() == 0 {
        reveal(Seq::filter);
    } else {
        let y = s.last();
        let r = stable_sort(k, s.drop_last());
        lemma_stable_sort_stable(k, s.drop_last(), x);
        lemma_stable_sort_sorted(k, s.drop_last());
        lemma_insert_pos(k, r, y);
        let p = insert_pos(k, r, y);
        let t = r.insert(p, y);
        let a = r.take(p);
        let b = r.skip(p);
        assert(t =~= a + seq![y] + b);
        assert(r =~= a + b);
        Seq::filter_distributes_over_add(a + seq![y], b, f);
        Seq::filter_distributes_over_add(a, seq![y], f);
        Seq::filter_distributes_over_add(a, b, f);
        assert(s.drop_last().push(y) =~= s);
        reveal(Seq::filter);
        assert(seq![y].drop_last() =~= Seq::<TaskView>::empty());
        assert(Seq::<TaskView>::empty().filter(f) =~= Seq::<TaskView>::empty());
        if f(y) {
            // Nothing after y's place has y's key.
            assert forall|i: int| 0 <= i < b.len() implies !f(#[trigger] b[i]) by {
                assert(b[i] == r[p + i]);
                if f(b[i]) {
                    lemma_key_trans(k, r[p + i], x, y);
                }
            }
            b.lemma_all_neg_filter_empty(f);
            assert(a + seq![y] + b == t);
        } else {
            assert(seq![y].filter(f) =~= Seq::<TaskView>::empty());
        }
    }
}


/// Law: a stable sort brings in no task that was not there.
pub proof fn lemma_stable_sort_members(k: SortKey, s: Seq<TaskView>)
    ensures
        forall|x: TaskView| #[trigger] stable_sort(k, s).contains(x) ==> exists|j: int| 0 <= j < s.len() && s[j] == x,
{
    broadcast use vstd::seq_lib::group_to_multiset_ensures;
    lemma_stable_sort_permutes(k, s);
    assert forall|x: TaskView| #[trigger] stable_sort(k, s).contains(x) implies exists|j: int| 0 <= j < s.len() && s[j] == x by {
        assert(s.to_multiset().count(x) > 0);
        assert(s.contains(x));
    }
}

/// `out` is `input` ordered by the key: the same tasks, each as often, in the
/// order of the key, and tasks with equal keys in the order they had in `input`.
pub open spec fn ordered_from(k: SortKey, out: Seq<TaskView>, input: Seq<TaskView>) -> bool {
    &&& out.to_multiset() == input.to_multiset()
    &&& sorted_by_key(k, out)
    &&& forall|x: TaskView| #[trigger] key_class(k, out, x) == key_class(k, input, x)
}

/// Law: the stable sort by a key orders the tasks by it (see `ordered_from`).
pub proof fn law_stable_sort_orders(k: SortKey, s: Seq<TaskView>)
    ensures
        ordered_from(k, stable_sort(k, s), s),
{
    lemma_stable_sort_permutes(k, s);
    lemma_stable_sort_sorted(k, s);
    assert forall|x: TaskView| #[trigger] key_class(k, stable_sort(k, s), x) == key_class(k, s, x) by {
        lemma_stable_sort_stable(k, s, x);
    }
}

/// The task without its id.
pub open spec fn unnumbered(t: TaskView) -> TaskView {
    TaskView { id: 0, ..t }
}

/// The tasks without their ids, as a multiset.
pub open spec fn unnumbered_multiset(s: Seq<TaskView>) -> Multiset<TaskView> {
    s.map_values(|t: TaskView| unnumbered(t)).to_multiset()
}

/// Sequences that hold the same tasks, each as often, hold the same images of
/// them under any map, each as often.
pub proof fn lemma_map_multiset(a: Seq<TaskView>, b: Seq<TaskView>, f: spec_fn(TaskView) -> TaskView)
    requires
        a.to_multiset() == b.to_multiset(),
    ensures
        a.map_values(f).to_multiset() == b.map_values(f).to_multiset(),
    decreases a.len(),
{
    broadcast use vstd::seq_lib::group_to_multiset_ensures;
    if a.len() == 0 {
        assert(b.to_multiset().len() == 0);
        assert(b.len() == 0);
        assert(a.map_values(f) =~= Seq::<TaskView>::empty());
        assert(b.map_values(f) =~= Seq::<TaskView>::empty());
    } else {
        let x = a.last();
        let a2 = a.drop_last();
        assert(a =~= a2.push(x));
        assert(a.to_multiset().count(x) > 0);
        assert(b.contains(x));
        let i = choose|i: int| 0 <= i < b.len() && b[i] == x;
        let b2 = b.remove(i);
        assert(b2.to_multiset() =~= b.to_multiset().remove(x));
        assert(a2.to_multiset() =~= a.to_multiset().remove(x));
        lemma_map_multiset(a2, b2, f);
        assert(a.map_values(f) =~= a2.map_values(f).push(f(x)));
        assert(b2.map_values(f) =~= b.map_values(f).remove(i));
        assert(b.map_values(f)[i] == f(x));
        assert(b.map_values(f).to_multiset() =~= b2.map_values(f).to_multiset().insert(f(x)));
    }
}

/// Sequences that hold the same tasks, each as often, hold the same tasks without
/// their ids.
pub proof fn lemma_unnumbered_multiset(a: Seq<TaskView>, b: Seq<TaskView>)
    requires
        a.to_multiset() == b.to_multiset(),
    ensures
        unnumbered_multiset(a) == unnumbered_multiset(b),
{
    lemma_map_multiset(a, b, |t: TaskView| unnumbered(t));
}

} // verus!
