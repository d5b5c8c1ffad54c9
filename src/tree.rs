//! Turning a flat list of tasks into the ordered, depth-annotated display list.
//!
//! Policy for a dangling parent link: a task whose `parent_task_id` names no
//! task of the list is promoted to a root, like a task without a parent.
use vstd::prelude::*;
use crate::model::{Task, TaskDisplay};

verus! {

/// Whether some task of `tasks` carries the identifier `id`.
pub open spec fn has_id(tasks: Seq<Task>, id: i64) -> bool {
    exists|j: int| 0 <= j < tasks.len() && tasks[j].id == id
}

/// A root has no parent, or a parent that is not in `tasks`.
pub open spec fn is_root(tasks: Seq<Task>, t: Task) -> bool {
    match t.parent_task_id {
        None => true,
        Some(p) => !has_id(tasks, p),
    }
}

/// The tasks of `s` that are roots with respect to `tasks`, in the order of `s`.
pub open spec fn roots_among(tasks: Seq<Task>, s: Seq<Task>) -> Seq<Task> {
    s.filter(|t: Task| is_root(tasks, t))
}

/// The direct children of the task with identifier `id`, in the order of `s`.
pub open spec fn children(s: Seq<Task>, id: i64) -> Seq<Task> {
    s.filter(|t: Task| t.parent_task_id == Some(id))
}

/// The tasks of `s` whose completion flag is `done`, in the order of `s`.
pub open spec fn with_status(s: Seq<Task>, done: bool) -> Seq<Task> {
    s.filter(|t: Task| t.completed == done)
}

/// The tasks of `s` created no later than `at`, in the order of `s`.
pub open spec fn created_by(s: Seq<Task>, at: i64) -> Seq<Task> {
    s.filter(|u: Task| u.created_at <= at)
}

/// The tasks of `s` created after `at`, in the order of `s`.
pub open spec fn created_after(s: Seq<Task>, at: i64) -> Seq<Task> {
    s.filter(|u: Task| u.created_at > at)
}

/// `t` placed after every task of `s` created no later than it.
pub open spec fn inserted_by_time(s: Seq<Task>, t: Task) -> Seq<Task> {
    created_by(s, t.created_at).push(t) + created_after(s, t.created_at)
}

/// `s` in ascending creation time; tasks created at the same instant keep
/// their order in `s`.
pub open spec fn sorted_by_time(s: Seq<Task>) -> Seq<Task>
    decreases s.len(),
{
    if s.len() == 0 {
        s
    } else {
        inserted_by_time(sorted_by_time(s.drop_last()), s.last())
    }
}

/// Sibling order: open tasks before completed ones, each group by creation time.
pub open spec fn arranged(s: Seq<Task>) -> Seq<Task> {
    sorted_by_time(with_status(s, false)) + sorted_by_time(with_status(s, true))
}

/// Rows (task, depth) of the trees rooted at `list`, each root followed by its
/// subtree in pre-order. `fuel` bounds the depth below `level` that is explored.
pub open spec fn forest(tasks: Seq<Task>, list: Seq<Task>, level: nat, fuel: nat) -> Seq<(Task, nat)>
    decreases fuel, list.len() + 1,
{
    if list.len() == 0 {
        seq![]
    } else {
        let t = list.last();
        forest(tasks, list.drop_last(), level, fuel) + seq![(t, level)] + subtree_below(
            tasks,
            t,
            level,
            fuel,
        )
    }
}

/// Rows of the subtree under `t`, which stands at depth `level`.
pub open spec fn subtree_below(tasks: Seq<Task>, t: Task, level: nat, fuel: nat) -> Seq<(Task, nat)>
    decreases fuel, 0nat,
{
    if fuel == 0 {
        seq![]
    } else {
        forest(tasks, arranged(children(tasks, t.id)), level + 1, (fuel - 1) as nat)
    }
}

/// The display rows of `tasks`.
///
/// The depth explored is bounded by the number of tasks. With unique
/// identifiers no row comes near that bound (`lemma_depth_below_count`), so
/// it only cuts off descent through duplicated identifiers.
pub open spec fn flatten(tasks: Seq<Task>) -> Seq<(Task, nat)> {
    forest(tasks, arranged(roots_among(tasks, tasks)), 0, tasks.len())
}

/// The (task, depth) pairs of a display list.
pub open spec fn rows_of(v: Seq<TaskDisplay>) -> Seq<(Task, nat)> {
    v.map_values(|d: TaskDisplay| (d.task, d.level as nat))
}

/// Every row records its own position.
pub open spec fn indexed(v: Seq<TaskDisplay>) -> bool {
    forall|i: int| 0 <= i < v.len() ==> #[trigger] v[i].index == i
}

fn contains_id(tasks: &Vec<Task>, id: i64) -> (r: bool)
    ensures
        r == has_id(tasks@, id),
{
    let mut i: usize = 0;
    while i < tasks.len()
        invariant
            i <= tasks.len(),
            forall|j: int| 0 <= j < i ==> tasks@[j].id != id,
        decreases tasks.len() - i,
    {
        if tasks[i].id == id {
            return true;
        }
        i += 1;
    }
    false
}

fn select_roots(tasks: &Vec<Task>) -> (r: Vec<Task>)
    ensures
        r@ == roots_among(tasks@, tasks@),
{
    let mut r: Vec<Task> = Vec::new();
    let mut i: usize = 0;
    while i < tasks.len()
        invariant
            i <= tasks.len(),
            r@ == roots_among(tasks@, tasks@.take(i as int)),
        decreases tasks.len() - i,
    {
        let t = &tasks[i];
        let keep = match t.parent_task_id {
            None => true,
            Some(p) => !contains_id(tasks, p),
        };
        proof {
            reveal(Seq::filter);
            assert(tasks@.take(i + 1).drop_last() =~= tasks@.take(i as int));
        }
        if keep {
            r.push(t.duplicate());
        }
        i += 1;
    }
    assert(tasks@.take(tasks.len() as int) =~= tasks@);
    r
}

fn select_children(tasks: &Vec<Task>, id: i64) -> (r: Vec<Task>)
    ensures
        r@ == children(tasks@, id),
{
    let mut r: Vec<Task> = Vec::new();
    let mut i: usize = 0;
    while i < tasks.len()
        invariant
            i <= tasks.len(),
            r@ == children(tasks@.take(i as int), id),
        decreases tasks.len() - i,
    {
        let t = &tasks[i];
        proof {
            reveal(Seq::filter);
            assert(tasks@.take(i + 1).drop_last() =~= tasks@.take(i as int));
        }
        if t.parent_task_id == Some(id) {
            r.push(t.duplicate());
        }
        i += 1;
    }
    assert(tasks@.take(tasks.len() as int) =~= tasks@);
    r
}

fn select_status(s: &Vec<Task>, done: bool) -> (r: Vec<Task>)
    ensures
        r@ == with_status(s@, done),
{
    let mut r: Vec<Task> = Vec::new();
    let mut i: usize = 0;
    while i < s.len()
        invariant
            i <= s.len(),
            r@ == with_status(s@.take(i as int), done),
        decreases s.len() - i,
    {
        let t = &s[i];
        proof {
            reveal(Seq::filter);
            assert(s@.take(i + 1).drop_last() =~= s@.take(i as int));
        }
        if t.completed == done {
            r.push(t.duplicate());
        }
        i += 1;
    }
    assert(s@.take(s.len() as int) =~= s@);
    r
}

fn insert_by_time(s: &Vec<Task>, t: Task) -> (r: Vec<Task>)
    ensures
        r@ == inserted_by_time(s@, t),
{
    let at = t.created_at;
    let mut r: Vec<Task> = Vec::new();
    let mut i: usize = 0;
    while i < s.len()
        invariant
            i <= s.len(),
            at == t.created_at,
            r@ == created_by(s@.take(i as int), at),
        decreases s.len() - i,
    {
        proof {
            reveal(Seq::filter);
            assert(s@.take(i + 1).drop_last() =~= s@.take(i as int));
        }
        if s[i].created_at <= at {
            r.push(s[i].duplicate());
        }
        i += 1;
    }
    assert(s@.take(s.len() as int) =~= s@);
    r.push(t);
    let ghost head = r@;
    let mut i: usize = 0;
    while i < s.len()
        invariant
            i <= s.len(),
            r@ == head + created_after(s@.take(i as int), at),
        decreases s.len() - i,
    {
        proof {
            reveal(Seq::filter);
            assert(s@.take(i + 1).drop_last() =~= s@.take(i as int));
        }
        if s[i].created_at > at {
            r.push(s[i].duplicate());
            proof {
                assert(r@ =~= head + created_after(s@.take(i + 1), at));
            }
        }
        i += 1;
    }
    assert(s@.take(s.len() as int) =~= s@);
    r
}

fn sort_by_time(s: &Vec<Task>) -> (r: Vec<Task>)
    ensures
        r@ == sorted_by_time(s@),
{
    let mut r: Vec<Task> = Vec::new();
    let mut i: usize = 0;
    while i < s.len()
        invariant
            i <= s.len(),
            r@ == sorted_by_time(s@.take(i as int)),
        decreases s.len() - i,
    {
        proof {
            assert(s@.take(i + 1).drop_last() =~= s@.take(i as int));
        }
        r = insert_by_time(&r, s[i].duplicate());
        i += 1;
    }
    assert(s@.take(s.len() as int) =~= s@);
    r
}

fn arrange(s: &Vec<Task>) -> (r: Vec<Task>)
    ensures
        r@ == arranged(s@),
{
    let mut open = sort_by_time(&select_status(s, false));
    let mut done = sort_by_time(&select_status(s, true));
    open.append(&mut done);
    open
}

fn emit_forest(tasks: &Vec<Task>, list: &Vec<Task>, level: usize, fuel: usize, out: &mut Vec<TaskDisplay>)
    requires
        level + fuel <= tasks.len(),
        indexed(old(out)@),
    ensures
        indexed(final(out)@),
        rows_of(final(out)@) == rows_of(old(out)@) + forest(tasks@, list@, level as nat, fuel as nat),
    decreases fuel,
{
    let ghost start = rows_of(out@);
    let mut k: usize = 0;
    while k < list.len()
        invariant
            k <= list.len(),
            level + fuel <= tasks.len(),
            indexed(out@),
            rows_of(out@) == start + forest(tasks@, list@.take(k as int), level as nat, fuel as nat),
        decreases list.len() - k,
    {
        let t = &list[k];
        let ghost before = rows_of(out@);
        let idx = out.len();
        out.push(TaskDisplay { task: t.duplicate(), level, index: idx });
        proof {
            assert(rows_of(out@) =~= before + seq![(list@[k as int], level as nat)]);
        }
        let ghost mid = rows_of(out@);
        if fuel > 0 {
            let kids = arrange(&select_children(tasks, t.id));
            emit_forest(tasks, &kids, level + 1, fuel - 1, out);
        }
        proof {
            assert(rows_of(out@) =~= mid + subtree_below(tasks@, list@[k as int], level as nat, fuel as nat));
            let tk = list@.take(k + 1);
            assert(tk.drop_last() =~= list@.take(k as int));
            assert(tk.last() == list@[k as int]);
            assert(rows_of(out@) =~= start + forest(tasks@, tk, level as nat, fuel as nat));
        }
        k += 1;
    }
    assert(list@.take(list.len() as int) =~= list@);
}

/// Builds the display list of one workspace's tasks.
///
/// Roots come first with open tasks before completed ones, each group in
/// ascending creation time; every task is followed by its subtree, whose
/// siblings are ordered the same way. Row `i` records depth and index `i`.
pub fn build_task_hierarchy(tasks: &Vec<Task>) -> (r: Vec<TaskDisplay>)
    ensures
        rows_of(r@) == flatten(tasks@),
        indexed(r@),
{
    let roots = arrange(&select_roots(tasks));
    let mut out: Vec<TaskDisplay> = Vec::new();
    proof {
        assert(rows_of(out@) =~= Seq::<(Task, nat)>::empty());
    }
    emit_forest(tasks, &roots, 0, tasks.len(), &mut out);
    assert(rows_of(out@) =~= flatten(tasks@));
    out
}

} // verus!
