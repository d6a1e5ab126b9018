//! Finding tasks by their place in the list or by their title.

use vstd::prelude::*;
use crate::error::FiniError;
use crate::storage::{TaskStorage, tasks_now, read_error};
use crate::task_item::{TaskItem, TaskView, views};
use crate::util::{visible, get_visible_items, get_task_id_by_index_from_list};

verus! {

/// The id of the task at the 1-based place `index` of the tasks, if there is one.
pub open spec fn id_at(v: Seq<TaskView>, index: int) -> Option<usize> {
    if 1 <= index <= v.len() {
        Some(v[index - 1].id as usize)
    } else {
        None
    }
}

/// `r` is the id of the task at the place `index` among the tasks that the active
/// board's list shows (in the order read), if there is one.
pub open spec fn id_for_index<S: TaskStorage>(st: S, index: int, r: Option<usize>) -> bool {
    match tasks_now(st) {
        Ok(s) => r == id_at(visible(s), index),
        Err(_) => false,
    }
}

/// The id of the task at the 1-based place `index` among the tasks that the active
/// board's list shows, if there is one.
pub fn get_id_for_index<S: TaskStorage>(storage: &S, index: usize) -> (r: Result<Option<usize>, FiniError>)
    requires
        index >= 1,
    ensures
        r matches Ok(x) ==> id_for_index(*storage, index as int, x),
        r matches Err(e) ==> read_error(e),
        tasks_now(*storage) is Err ==> r is Err,
{
    let visible = get_visible_items(storage)?;
    let r = get_task_id_by_index_from_list(index, &visible);
    assert(index <= visible.len() ==> views(visible@)[index - 1].id == visible@[index - 1].id);
    Ok(r)
}

/// The ids of the tasks at the places `indices`, in that order, leaving out places
/// where there is no task.
pub open spec fn ids_at(v: Seq<TaskView>, indices: Seq<usize>) -> Seq<usize>
    decreases indices.len(),
{
    if indices.len() == 0 {
        Seq::empty()
    } else {
        ids_at(v, indices.drop_last()) + match id_at(v, indices.last() as int) {
            Some(id) => seq![id],
            None => Seq::empty(),
        }
    }
}

/// `r` is the ids of the tasks at the places `indices` among the tasks that the
/// active board's list shows.
pub open spec fn ids_for_indices<S: TaskStorage>(st: S, indices: Seq<usize>, r: Seq<usize>) -> bool {
    match tasks_now(st) {
        Ok(s) => r == ids_at(visible(s), indices),
        Err(_) => false,
    }
}

/// The ids of the tasks at the 1-based places `indices` among the tasks that the
/// active board's list shows, leaving out places where there is no task.
pub fn get_ids_for_indices<S: TaskStorage>(storage: &S, indices: Vec<usize>) -> (r: Result<Vec<usize>, FiniError>)
    requires
        forall|k: int| 0 <= k < indices.len() ==> #[trigger] indices@[k] >= 1,
    ensures
        r matches Ok(v) ==> ids_for_indices(*storage, indices@, v@),
        r matches Err(e) ==> read_error(e),
        tasks_now(*storage) is Err ==> r is Err,
{
    let visible = get_visible_items(storage)?;
    let ghost vs = views(visible@);
    let mut ids: Vec<usize> = Vec::new();
    let mut k: usize = 0;
    while k < indices.len()
        invariant
            k <= indices.len(),
            vs == views(visible@),
            forall|j: int| 0 <= j < indices.len() ==> #[trigger] indices@[j] >= 1,
            ids@ == ids_at(vs, indices@.take(k as int)),
        decreases indices.len() - k,
    {
        let index = indices[k];
        assert(indices@.take(k + 1).drop_last() =~= indices@.take(k as int));
        assert(indices@.take(k + 1).last() == index);
        let ghost before = ids@;
        match get_task_id_by_index_from_list(index, &visible) {
            Some(id) => {
                ids.push(id);
                assert(vs[index - 1].id == visible@[index - 1].id);
                assert(ids@ =~= before + seq![id]);
            },
            None => {
                assert(ids@ =~= before + Seq::<usize>::empty());
            },
        }
        k += 1;
    }
    assert(indices@.take(indices.len() as int) =~= indices@);
    Ok(ids)
}

/// The place of the first task with the title, or -1 if none has it.
pub open spec fn title_index(v: Seq<TaskView>, title: Seq<char>) -> int
    decreases v.len(),
{
    if v.len() == 0 {
        -1
    } else {
        let r = title_index(v.drop_last(), title);
        if r >= 0 {
            r
        } else if v.last().title == title {
            v.len() - 1
        } else {
            -1
        }
    }
}

/// `r` is the id of the first task with the title among the tasks that the active
/// board's list shows, if there is one.
pub open spec fn id_for_title<S: TaskStorage>(st: S, title: Seq<char>, r: Option<usize>) -> bool {
    match tasks_now(st) {
        Ok(s) => {
            let i = title_index(visible(s), title);
            r == if i >= 0 { Some(visible(s)[i].id as usize) } else { None }
        },
        Err(_) => false,
    }
}

/// The id of the first task with the title among the tasks that the active board's
/// list shows, if there is one.
pub fn get_id_for_title<S: TaskStorage>(storage: &S, title: &str) -> (r: Result<Option<usize>, FiniError>)
    ensures
        r matches Ok(x) ==> id_for_title(*storage, title@, x),
        r matches Err(e) ==> read_error(e),
        tasks_now(*storage) is Err ==> r is Err,
{
    let visible = get_visible_items(storage)?;
    let ghost vs = views(visible@);
    let wanted = String::from_str(title);
    let mut k: usize = 0;
    assert(vs.take(0) =~= Seq::<TaskView>::empty());
    while k < visible.len()
        invariant
            k <= visible.len(),
            vs == views(visible@),
            title_index(vs.take(k as int), title@) == -1,
            wanted@ == title@,
            crate::util::visible_of(*storage, vs),
        decreases visible.len() - k,
    {
        assert(vs.take(k + 1).drop_last() =~= vs.take(k as int));
        assert(vs.take(k + 1).last() == visible@[k as int]@);
        if visible[k].title == wanted {
            proof {
                lemma_title_index_prefix(vs, title@, k as int + 1);
            }
            assert(vs[k as int].id == visible@[k as int].id);
            return Ok(Some(visible[k].id));
        }
        k += 1;
    }
    assert(vs.take(visible.len() as int) =~= vs);
    Ok(None)
}

/// Once the first task with the title is found in a prefix, the whole list gives
/// the same place.
proof fn lemma_title_index_prefix(v: Seq<TaskView>, title: Seq<char>, k: int)
    requires
        0 < k <= v.len(),
        title_index(v.take(k), title) >= 0,
    ensures
        title_index(v, title) == title_index(v.take(k), title),
    decreases v.len() - k,
{
    if k < v.len() {
        assert(v.take(k + 1).drop_last() =~= v.take(k));
        lemma_title_index_prefix(v, title, k + 1);
    } else {
        assert(v.take(k) =~= v);
    }
}

/// Law: the ids at the places are one for each place that holds a task, in the
/// order the places were given, each the id of the task at that place (counted
/// from 1); a place past the end, or 0, gives none.
pub proof fn law_ids_at_places(v: Seq<TaskView>, indices: Seq<usize>)
    ensures
        ids_at(v, indices) == indices.filter(|k: usize| 1 <= k <= v.len()).map_values(|k: usize| v[k - 1].id as usize),
    decreases indices.len(),
{
    let f = |k: usize| 1 <= k <= v.len();
    let g = |k: usize| v[k - 1].id as usize;
    if indices.len() == 0 {
        assert(indices.filter(f) =~= Seq::<usize>::empty());
        assert(indices.filter(f).map_values(g) =~= Seq::<usize>::empty());
    } else {
        let init = indices.drop_last();
        let x = indices.last();
        law_ids_at_places(v, init);
        assert(indices =~= init + seq![x]);
        Seq::filter_distributes_over_add(init, seq![x], f);
        reveal(Seq::filter);
        assert(seq![x].drop_last() =~= Seq::<usize>::empty());
        assert(Seq::<usize>::empty().filter(f) =~= Seq::<usize>::empty());
        let fx = seq![x].filter(f);
        assert((init.filter(f) + fx).map_values(g) =~= init.filter(f).map_values(g) + fx.map_values(g));
        if f(x) {
            assert(fx =~= seq![x]);
            assert(fx.map_values(g) =~= seq![g(x)]);
        } else {
            assert(fx =~= Seq::<usize>::empty());
            assert(fx.map_values(g) =~= Seq::<usize>::empty());
        }
        assert(ids_at(v, indices) =~= indices.filter(f).map_values(g));
    }
}

} // verus!
