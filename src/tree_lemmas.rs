//! What the display list guarantees: sibling order, subtree blocks, and a
//! single possible result for each task list.
use vstd::prelude::*;
use crate::model::{Task, TaskDisplay};
use crate::tree::{
    arranged, children, created_after, created_by, flatten, forest, has_id, indexed,
    inserted_by_time, is_root, roots_among, rows_of, sorted_by_time, subtree_below, with_status,
};

verus! {

broadcast use vstd::seq_lib::group_filter_ensures;

/// Creation times never decrease along `s`.
pub open spec fn time_ordered(s: Seq<Task>) -> bool {
    forall|i: int, j: int| 0 <= i < j < s.len() ==> s[i].created_at <= s[j].created_at
}

proof fn lemma_filter_keeps_order(s: Seq<Task>, pred: spec_fn(Task) -> bool)
    requires
        time_ordered(s),
    ensures
        time_ordered(s.filter(pred)),
    decreases s.len(),
{
    reveal(Seq::filter);
    if s.len() > 0 {
        let rest = s.drop_last();
        lemma_filter_keeps_order(rest, pred);
        let f = rest.filter(pred);
        assert forall|k: int| 0 <= k < f.len() implies f[k].created_at <= s.last().created_at by {
            assert(f.contains(f[k]));
            rest.lemma_filter_contains_rev(pred, f[k]);
        }
    }
}

proof fn lemma_filter_members<A>(s: Seq<A>, pred: spec_fn(A) -> bool, k: int)
    requires
        0 <= k < s.filter(pred).len(),
    ensures
        s.contains(s.filter(pred)[k]),
        pred(s.filter(pred)[k]),
{
    assert(s.filter(pred).contains(s.filter(pred)[k]));
    s.lemma_filter_contains_rev(pred, s.filter(pred)[k]);
}

proof fn lemma_sorted_by_time(s: Seq<Task>)
    ensures
        time_ordered(sorted_by_time(s)),
        forall|k: int| 0 <= k < sorted_by_time(s).len() ==> s.contains(#[trigger] sorted_by_time(s)[k]),
    decreases s.len(),
{
    if s.len() > 0 {
        let rest = s.drop_last();
        let t = s.last();
        lemma_sorted_by_time(rest);
        let a = sorted_by_time(rest);
        let lo = created_by(a, t.created_at);
        let hi = created_after(a, t.created_at);
        lemma_filter_keeps_order(a, |u: Task| u.created_at <= t.created_at);
        lemma_filter_keeps_order(a, |u: Task| u.created_at > t.created_at);
        let r = inserted_by_time(a, t);
        assert(r == lo.push(t) + hi);
        assert forall|k: int| 0 <= k < r.len() implies s.contains(#[trigger] r[k]) by {
            if k < lo.len() {
                lemma_filter_members(a, |u: Task| u.created_at <= t.created_at, k);
                let m = choose|m: int| 0 <= m < a.len() && a[m] == r[k];
                let m2 = choose|m2: int| 0 <= m2 < rest.len() && rest[m2] == a[m];
                assert(s[m2] == r[k]);
            } else if k == lo.len() {
                assert(s[s.len() - 1] == r[k]);
            } else {
                lemma_filter_members(a, |u: Task| u.created_at > t.created_at, k - lo.len() - 1);
                let m = choose|m: int| 0 <= m < a.len() && a[m] == r[k];
                let m2 = choose|m2: int| 0 <= m2 < rest.len() && rest[m2] == a[m];
                assert(s[m2] == r[k]);
            }
        }
        assert forall|i: int, j: int| 0 <= i < j < r.len() implies r[i].created_at <= r[j].created_at by {
            if i < lo.len() && j >= lo.len() + 1 {
                lemma_filter_members(a, |u: Task| u.created_at <= t.created_at, i);
                lemma_filter_members(a, |u: Task| u.created_at > t.created_at, j - lo.len() - 1);
            } else if i < lo.len() && j == lo.len() {
                lemma_filter_members(a, |u: Task| u.created_at <= t.created_at, i);
            } else if i == lo.len() {
                lemma_filter_members(a, |u: Task| u.created_at > t.created_at, j - lo.len() - 1);
            }
        }
    }
}

/// Siblings as arranged for display: no completed task comes before an open
/// one, and tasks of the same status appear in ascending creation time.
pub proof fn lemma_sibling_order(s: Seq<Task>)
    ensures
        forall|i: int, j: int|
            0 <= i < j < arranged(s).len() && !(#[trigger] arranged(s)[j]).completed
                ==> !(#[trigger] arranged(s)[i]).completed,
        forall|i: int, j: int|
            0 <= i < j < arranged(s).len() && (#[trigger] arranged(s)[i]).completed == (
            #[trigger] arranged(s)[j]).completed ==> arranged(s)[i].created_at
                <= arranged(s)[j].created_at,
{
    let open = with_status(s, false);
    let done = with_status(s, true);
    lemma_sorted_by_time(open);
    lemma_sorted_by_time(done);
    let a = sorted_by_time(open);
    let b = sorted_by_time(done);
    let r = arranged(s);
    assert forall|k: int| 0 <= k < a.len() implies !(#[trigger] a[k]).completed by {
        let m = choose|m: int| 0 <= m < open.len() && open[m] == a[k];
        lemma_filter_members(s, |t: Task| t.completed == false, m);
    }
    assert forall|k: int| 0 <= k < b.len() implies (#[trigger] b[k]).completed by {
        let m = choose|m: int| 0 <= m < done.len() && done[m] == b[k];
        lemma_filter_members(s, |t: Task| t.completed == true, m);
    }
    assert forall|i: int, j: int|
        0 <= i < j < r.len() && !(#[trigger] r[j]).completed implies !(#[trigger] r[i]).completed by {
        if j >= a.len() {
            assert(r[j] == b[j - a.len()]);
        } else {
            assert(r[i] == a[i]);
        }
    }
    assert forall|i: int, j: int|
        0 <= i < j < r.len() && (#[trigger] r[i]).completed == (#[trigger] r[j]).completed implies r[i].created_at
        <= r[j].created_at by {
        if j < a.len() {
            assert(r[i] == a[i] && r[j] == a[j]);
        } else if i >= a.len() {
            assert(r[i] == b[i - a.len()] && r[j] == b[j - a.len()]);
        } else {
            assert(r[i] == a[i] && r[j] == b[j - a.len()]);
        }
    }
}

/// Row `i` of `rows`, a forest at depth `level` with depth budget `fuel`, is
/// followed at once by the rows of its subtree; the row after that block, if
/// any, is no deeper than row `i`.
pub open spec fn block_follows(rows: Seq<(Task, nat)>, tasks: Seq<Task>, level: nat, fuel: nat, i: int) -> bool {
    let d = rows[i].1;
    let b = subtree_below(tasks, rows[i].0, d, (level + fuel - d) as nat);
    &&& level <= d <= level + fuel
    &&& i + 1 + b.len() <= rows.len()
    &&& rows.subrange(i + 1, i + 1 + b.len()) == b
    &&& (i + 1 + b.len() < rows.len() ==> rows[i + 1 + b.len()].1 <= d)
}

/// The rows of `rows` at depth `level`, in order.
pub open spec fn at_depth(rows: Seq<(Task, nat)>, level: nat) -> Seq<(Task, nat)> {
    rows.filter(depth_is(level))
}

/// Whether a row stands at depth `level`.
pub open spec fn depth_is(level: nat) -> spec_fn((Task, nat)) -> bool {
    |r: (Task, nat)| r.1 == level
}

/// `list` with every task paired with the depth `level`.
pub open spec fn at_level(list: Seq<Task>, level: nat) -> Seq<(Task, nat)> {
    list.map_values(|t: Task| (t, level))
}

proof fn lemma_forest_blocks(tasks: Seq<Task>, list: Seq<Task>, level: nat, fuel: nat)
    ensures
        forall|i: int|
            0 <= i < forest(tasks, list, level, fuel).len() ==> #[trigger] block_follows(
                forest(tasks, list, level, fuel),
                tasks,
                level,
                fuel,
                i,
            ),
    decreases fuel, list.len(),
{
    if list.len() > 0 {
        let t = list.last();
        let front = forest(tasks, list.drop_last(), level, fuel);
        let below = subtree_below(tasks, t, level, fuel);
        let rows = forest(tasks, list, level, fuel);
        lemma_forest_blocks(tasks, list.drop_last(), level, fuel);
        if fuel > 0 {
            lemma_forest_blocks(tasks, arranged(children(tasks, t.id)), level + 1, (fuel - 1) as nat);
        }
        assert(rows == front + seq![(t, level)] + below);
        let n = front.len() as int;
        assert forall|i: int| 0 <= i < rows.len() implies #[trigger] block_follows(
            rows,
            tasks,
            level,
            fuel,
            i,
        ) by {
            if i < n {
                assert(block_follows(front, tasks, level, fuel, i));
                assert(rows[i] == front[i]);
                let d = front[i].1;
                let b = subtree_below(tasks, front[i].0, d, (level + fuel - d) as nat);
                assert(rows.subrange(i + 1, i + 1 + b.len()) =~= front.subrange(i + 1, i + 1 + b.len()));
                if i + 1 + b.len() < n {
                    assert(rows[i + 1 + b.len()] == front[i + 1 + b.len()]);
                } else if i + 1 + b.len() == n {
                    assert(rows[n] == (t, level));
                }
            } else if i == n {
                assert(rows[i] == (t, level));
                assert(rows.subrange(n + 1, n + 1 + below.len()) =~= below);
            } else {
                let k = i - n - 1;
                assert(fuel > 0);
                let sub = forest(tasks, arranged(children(tasks, t.id)), level + 1, (fuel - 1) as nat);
                assert(below == sub);
                assert(block_follows(sub, tasks, level + 1, (fuel - 1) as nat, k));
                assert(rows[i] == below[k]);
                let d = below[k].1;
                let b = subtree_below(tasks, below[k].0, d, (level + fuel - d) as nat);
                assert(rows.subrange(i + 1, i + 1 + b.len()) =~= below.subrange(k + 1, k + 1 + b.len()));
                if k + 1 + b.len() < below.len() {
                    assert(rows[i + 1 + b.len()] == below[k + 1 + b.len()]);
                }
            }
        }
    }
}

proof fn lemma_nothing_at_depth(rows: Seq<(Task, nat)>, level: nat)
    requires
        forall|i: int| 0 <= i < rows.len() ==> (#[trigger] rows[i]).1 > level,
    ensures
        at_depth(rows, level) =~= Seq::<(Task, nat)>::empty(),
{
    if at_depth(rows, level).len() > 0 {
        lemma_filter_members(rows, depth_is(level), 0);
        let m = choose|m: int| 0 <= m < rows.len() && rows[m] == at_depth(rows, level)[0];
        assert(rows[m].1 > level);
    }
}

proof fn lemma_below_deeper(tasks: Seq<Task>, t: Task, level: nat, fuel: nat)
    ensures
        forall|i: int|
            0 <= i < subtree_below(tasks, t, level, fuel).len() ==> (#[trigger] subtree_below(
                tasks,
                t,
                level,
                fuel,
            )[i]).1 > level,
{
    if fuel > 0 {
        let sub = forest(tasks, arranged(children(tasks, t.id)), level + 1, (fuel - 1) as nat);
        assert(subtree_below(tasks, t, level, fuel) == sub);
        lemma_forest_blocks(tasks, arranged(children(tasks, t.id)), level + 1, (fuel - 1) as nat);
        assert forall|i: int| 0 <= i < sub.len() implies (#[trigger] sub[i]).1 > level by {
            assert(block_follows(sub, tasks, level + 1, (fuel - 1) as nat, i));
        }
    }
}

proof fn lemma_top_rows(tasks: Seq<Task>, list: Seq<Task>, level: nat, fuel: nat)
    ensures
        at_depth(forest(tasks, list, level, fuel), level) == at_level(list, level),
    decreases list.len(),
{
    let pred = depth_is(level);
    if list.len() == 0 {
        assert(at_level(list, level) =~= Seq::<(Task, nat)>::empty());
        assert(Seq::<(Task, nat)>::empty().filter(pred) =~= Seq::<(Task, nat)>::empty()) by {
            reveal(Seq::filter);
        }
    } else {
        let t = list.last();
        let front = forest(tasks, list.drop_last(), level, fuel);
        let below = subtree_below(tasks, t, level, fuel);
        lemma_top_rows(tasks, list.drop_last(), level, fuel);
        lemma_below_deeper(tasks, t, level, fuel);
        lemma_nothing_at_depth(below, level);
        let single = seq![(t, level)];
        assert(single.filter(pred) =~= single) by {
            reveal(Seq::filter);
            assert(single.drop_last() =~= Seq::<(Task, nat)>::empty());
        }
        assert(forest(tasks, list, level, fuel) == (front + single) + below);
        Seq::filter_distributes_over_add(front + single, below, pred);
        Seq::filter_distributes_over_add(front, single, pred);
        assert(at_level(list, level) =~= at_level(list.drop_last(), level).push((t, level)));
        assert(at_depth(forest(tasks, list, level, fuel), level) =~= at_level(list, level));
    }
}

/// Every display row is followed at once by the rows of its subtree, all of
/// them deeper than it; the row after that block, if any, is no deeper than it.
pub proof fn lemma_subtree_contiguous(tasks: Seq<Task>, i: int)
    requires
        0 <= i < flatten(tasks).len(),
    ensures
        block_follows(flatten(tasks), tasks, 0, tasks.len(), i),
        forall|k: int|
            0 <= k < subtree_below(tasks, flatten(tasks)[i].0, flatten(tasks)[i].1, (tasks.len() - flatten(tasks)[i].1) as nat).len()
            ==> (#[trigger] subtree_below(tasks, flatten(tasks)[i].0, flatten(tasks)[i].1, (tasks.len() - flatten(tasks)[i].1) as nat)[k]).1
            > flatten(tasks)[i].1,
{
    let roots = arranged(roots_among(tasks, tasks));
    let n = tasks.len();
    lemma_forest_blocks(tasks, roots, 0, n);
    let rows = flatten(tasks);
    assert(block_follows(rows, tasks, 0, n, i));
    let t = rows[i].0;
    let d = rows[i].1;
    lemma_below_deeper(tasks, t, d, (n - d) as nat);
}

/// The rows of the display at depth 0 are the roots in sibling order.
pub proof fn lemma_roots_in_sibling_order(tasks: Seq<Task>)
    ensures
        at_depth(flatten(tasks), 0) == at_level(arranged(roots_among(tasks, tasks)), 0),
{
    lemma_top_rows(tasks, arranged(roots_among(tasks, tasks)), 0, tasks.len());
}

/// Within the block under a display row, the rows one level deeper are that
/// task's children: open ones before completed ones, each group in ascending
/// creation time.
pub proof fn lemma_children_in_sibling_order(tasks: Seq<Task>, i: int)
    requires
        unique_ids(tasks),
        0 <= i < flatten(tasks).len(),
    ensures
        ({
            let t = flatten(tasks)[i].0;
            let d = flatten(tasks)[i].1;
            let kids = at_depth(subtree_below(tasks, t, d, (tasks.len() - d) as nat), d + 1);
            &&& kids == at_level(arranged(children(tasks, t.id)), d + 1)
            &&& forall|j: int, k: int|
                0 <= j < k < kids.len() && !(#[trigger] kids[k]).0.completed
                    ==> !(#[trigger] kids[j]).0.completed
            &&& forall|j: int, k: int|
                0 <= j < k < kids.len() && (#[trigger] kids[j]).0.completed == (
                #[trigger] kids[k]).0.completed ==> kids[j].0.created_at <= kids[k].0.created_at
            &&& forall|k: int| 0 <= k < kids.len() ==> (#[trigger] kids[k]).0.parent_task_id == Some(t.id)
        }),
{
    lemma_depth_below_count(tasks, i);
    let t = flatten(tasks)[i].0;
    let d = flatten(tasks)[i].1;
    let n = tasks.len();
    let sibs = arranged(children(tasks, t.id));
    lemma_top_rows(tasks, sibs, d + 1, (n - d - 1) as nat);
    lemma_sibling_order(children(tasks, t.id));
    let kids = at_depth(subtree_below(tasks, t, d, (n - d) as nat), d + 1);
    assert(kids == at_level(sibs, d + 1));
    assert forall|k: int| 0 <= k < kids.len() implies (#[trigger] kids[k]).0 == sibs[k] by {}
    lemma_arranged_members(children(tasks, t.id));
    assert forall|k: int| 0 <= k < kids.len() implies (#[trigger] kids[k]).0.parent_task_id == Some(t.id) by {
        let c = children(tasks, t.id);
        let m = choose|m: int| 0 <= m < c.len() && c[m] == sibs[k];
        lemma_filter_members(tasks, |u: Task| u.parent_task_id == Some(t.id), m);
    }
}

proof fn lemma_arranged_members(s: Seq<Task>)
    ensures
        forall|k: int| 0 <= k < arranged(s).len() ==> s.contains(#[trigger] arranged(s)[k]),
{
    let open = with_status(s, false);
    let done = with_status(s, true);
    lemma_sorted_by_time(open);
    lemma_sorted_by_time(done);
    let a = sorted_by_time(open);
    let b = sorted_by_time(done);
    assert forall|k: int| 0 <= k < arranged(s).len() implies s.contains(#[trigger] arranged(s)[k]) by {
        if k < a.len() {
            assert(arranged(s)[k] == a[k]);
            let m = choose|m: int| 0 <= m < open.len() && open[m] == a[k];
            lemma_filter_members(s, |t: Task| t.completed == false, m);
        } else {
            assert(arranged(s)[k] == b[k - a.len()]);
            let m = choose|m: int| 0 <= m < done.len() && done[m] == b[k - a.len()];
            lemma_filter_members(s, |t: Task| t.completed == true, m);
        }
    }
}

/// Two lists that both meet the contract of `build_task_hierarchy` for the
/// same tasks are identical: rebuilding from an unchanged task list gives the
/// same display list.
pub proof fn lemma_rebuild_identical(tasks: Seq<Task>, a: Seq<TaskDisplay>, b: Seq<TaskDisplay>)
    requires
        rows_of(a) == flatten(tasks),
        indexed(a),
        rows_of(b) == flatten(tasks),
        indexed(b),
    ensures
        a == b,
{
    assert(a.len() == rows_of(a).len());
    assert(b.len() == rows_of(b).len());
    assert forall|i: int| 0 <= i < a.len() implies a[i] == b[i] by {
        assert(rows_of(a)[i] == (a[i].task, a[i].level as nat));
        assert(rows_of(b)[i] == (b[i].task, b[i].level as nat));
        assert(a[i].index == b[i].index);
    }
    assert(a =~= b);
}

/// No two tasks of `tasks` share an identifier.
pub open spec fn unique_ids(tasks: Seq<Task>) -> bool {
    forall|a: int, b: int|
        0 <= a < tasks.len() && 0 <= b < tasks.len() && (#[trigger] tasks[a]).id == (#[trigger] tasks[b]).id
            ==> a == b
}

/// `c` is a path of tasks of `tasks` from a root down parent links.
pub open spec fn is_chain(tasks: Seq<Task>, c: Seq<Task>) -> bool {
    &&& c.len() > 0
    &&& is_root(tasks, c[0])
    &&& forall|k: int| 0 <= k < c.len() ==> tasks.contains(#[trigger] c[k])
    &&& forall|k: int| 0 < k < c.len() ==> (#[trigger] c[k]).parent_task_id == Some(c[k - 1].id)
}

/// Some path of `len` tasks from a root ends at `u`.
pub open spec fn chain_to(tasks: Seq<Task>, u: Task, len: nat) -> bool {
    exists|c: Seq<Task>| is_chain(tasks, c) && c.len() == len && c.last() == u
}

proof fn lemma_chain_no_repeat(tasks: Seq<Task>, c: Seq<Task>, i: int, j: int)
    requires
        unique_ids(tasks),
        is_chain(tasks, c),
        0 <= i < j < c.len(),
    ensures
        c[i] != c[j],
    decreases i,
{
    if c[i] == c[j] {
        assert(tasks.contains(c[j - 1]));
        let b = choose|b: int| 0 <= b < tasks.len() && tasks[b] == c[j - 1];
        assert(c[j].parent_task_id == Some(c[j - 1].id));
        if i == 0 {
            assert(has_id(tasks, c[j - 1].id));
        } else {
            assert(c[i].parent_task_id == Some(c[i - 1].id));
            assert(tasks.contains(c[i - 1]));
            let a = choose|a: int| 0 <= a < tasks.len() && tasks[a] == c[i - 1];
            assert(tasks[a].id == tasks[b].id);
            lemma_chain_no_repeat(tasks, c, i - 1, j - 1);
        }
    }
}

proof fn lemma_chain_short(tasks: Seq<Task>, c: Seq<Task>)
    requires
        unique_ids(tasks),
        is_chain(tasks, c),
    ensures
        c.len() <= tasks.len(),
{
    assert forall|i: int, j: int| 0 <= i < c.len() && 0 <= j < c.len() && i != j implies c[i] != c[j] by {
        if i < j {
            lemma_chain_no_repeat(tasks, c, i, j);
        } else {
            lemma_chain_no_repeat(tasks, c, j, i);
        }
    }
    assert(c.no_duplicates());
    c.unique_seq_to_set();
    tasks.lemma_cardinality_of_set();
    assert(c.to_set().subset_of(tasks.to_set())) by {
        assert forall|x: Task| c.to_set().contains(x) implies tasks.to_set().contains(x) by {
            let k = choose|k: int| 0 <= k < c.len() && c[k] == x;
            assert(tasks.contains(c[k]));
        }
    }
    vstd::set_lib::lemma_len_subset(c.to_set(), tasks.to_set());
}

proof fn lemma_children_extend_chain(tasks: Seq<Task>, t: Task, len: nat, k: int)
    requires
        chain_to(tasks, t, len),
        0 <= k < arranged(children(tasks, t.id)).len(),
    ensures
        chain_to(tasks, arranged(children(tasks, t.id))[k], len + 1),
{
    let kids = children(tasks, t.id);
    let u = arranged(kids)[k];
    lemma_arranged_members(kids);
    let m = choose|m: int| 0 <= m < kids.len() && kids[m] == u;
    lemma_filter_members(tasks, |v: Task| v.parent_task_id == Some(t.id), m);
    let c = choose|c: Seq<Task>| is_chain(tasks, c) && c.len() == len && c.last() == t;
    let c2 = c.push(u);
    assert(c2.last() == u);
    assert forall|i: int| 0 <= i < c2.len() implies tasks.contains(#[trigger] c2[i]) by {
        if i < c.len() {
            assert(c2[i] == c[i]);
        }
    }
    assert forall|i: int| 0 < i < c2.len() implies (#[trigger] c2[i]).parent_task_id == Some(c2[i - 1].id) by {
        if i < c.len() {
            assert(c2[i] == c[i]);
            assert(c2[i - 1] == c[i - 1]);
        }
    }
    assert(is_chain(tasks, c2));
}

proof fn lemma_forest_chains(tasks: Seq<Task>, list: Seq<Task>, level: nat, fuel: nat)
    requires
        forall|k: int| 0 <= k < list.len() ==> chain_to(tasks, #[trigger] list[k], level + 1),
    ensures
        forall|i: int|
            0 <= i < forest(tasks, list, level, fuel).len() ==> chain_to(
                tasks,
                #[trigger] forest(tasks, list, level, fuel)[i].0,
                forest(tasks, list, level, fuel)[i].1 + 1,
            ),
    decreases fuel, list.len(),
{
    if list.len() > 0 {
        let t = list.last();
        let front = forest(tasks, list.drop_last(), level, fuel);
        let below = subtree_below(tasks, t, level, fuel);
        let rows = forest(tasks, list, level, fuel);
        assert(chain_to(tasks, list[list.len() - 1], level + 1));
        assert forall|k: int| 0 <= k < list.drop_last().len() implies chain_to(
            tasks,
            #[trigger] list.drop_last()[k],
            level + 1,
        ) by {
            assert(list.drop_last()[k] == list[k]);
        }
        lemma_forest_chains(tasks, list.drop_last(), level, fuel);
        if fuel > 0 {
            let kids = arranged(children(tasks, t.id));
            assert forall|k: int| 0 <= k < kids.len() implies chain_to(tasks, #[trigger] kids[k], level + 2) by {
                lemma_children_extend_chain(tasks, t, level + 1, k);
            }
            lemma_forest_chains(tasks, kids, level + 1, (fuel - 1) as nat);
        }
        assert(rows == front + seq![(t, level)] + below);
        let n = front.len() as int;
        assert forall|i: int| 0 <= i < rows.len() implies chain_to(tasks, #[trigger] rows[i].0, rows[i].1 + 1) by {
            if i < n {
                assert(rows[i] == front[i]);
                assert(chain_to(tasks, front[i].0, front[i].1 + 1));
            } else if i == n {
                assert(rows[i] == (t, level));
            } else {
                let k = i - n - 1;
                assert(rows[i] == below[k]);
                assert(fuel > 0);
                let sub = forest(tasks, arranged(children(tasks, t.id)), level + 1, (fuel - 1) as nat);
                assert(below == sub);
                assert(chain_to(tasks, sub[k].0, sub[k].1 + 1));
            }
        }
    }
}

/// With unique identifiers every display row lies less deep than the number
/// of tasks, so the depth bound of `flatten` never cuts a subtree short.
pub proof fn lemma_depth_below_count(tasks: Seq<Task>, i: int)
    requires
        unique_ids(tasks),
        0 <= i < flatten(tasks).len(),
    ensures
        flatten(tasks)[i].1 < tasks.len(),
{
    let rs = roots_among(tasks, tasks);
    let list = arranged(rs);
    lemma_arranged_members(rs);
    assert forall|k: int| 0 <= k < list.len() implies chain_to(tasks, #[trigger] list[k], 1) by {
        let m = choose|m: int| 0 <= m < rs.len() && rs[m] == list[k];
        lemma_filter_members(tasks, |t: Task| is_root(tasks, t), m);
        let c = seq![list[k]];
        assert(c[0] == list[k]);
        assert(is_chain(tasks, c));
    }
    lemma_forest_chains(tasks, list, 0, tasks.len());
    let row = flatten(tasks)[i];
    assert(chain_to(tasks, row.0, row.1 + 1));
    let c = choose|c: Seq<Task>| is_chain(tasks, c) && c.len() == row.1 + 1 && c.last() == row.0;
    lemma_chain_short(tasks, c);
}

/// Row `j` sits directly under row `i`: one level deeper, its task a child of
/// row `i`'s task, and every row between them deeper than row `i`.
pub open spec fn parent_row(rows: Seq<(Task, nat)>, i: int, j: int) -> bool {
    &&& 0 <= i < j < rows.len()
    &&& rows[j].1 == rows[i].1 + 1
    &&& rows[j].0.parent_task_id == Some(rows[i].0.id)
    &&& forall|k: int| i < k < j ==> (#[trigger] rows[k]).1 > rows[i].1
}

proof fn lemma_top_members(tasks: Seq<Task>, list: Seq<Task>, level: nat, fuel: nat)
    ensures
        forall|j: int|
            0 <= j < forest(tasks, list, level, fuel).len() && (#[trigger] forest(tasks, list, level, fuel)[j]).1
                == level ==> list.contains(forest(tasks, list, level, fuel)[j].0),
    decreases list.len(),
{
    if list.len() > 0 {
        let t = list.last();
        let front = forest(tasks, list.drop_last(), level, fuel);
        let below = subtree_below(tasks, t, level, fuel);
        let rows = forest(tasks, list, level, fuel);
        lemma_top_members(tasks, list.drop_last(), level, fuel);
        lemma_below_deeper(tasks, t, level, fuel);
        assert(rows == front + seq![(t, level)] + below);
        let n = front.len() as int;
        assert forall|j: int| 0 <= j < rows.len() && (#[trigger] rows[j]).1 == level implies list.contains(
            rows[j].0,
        ) by {
            if j < n {
                assert(rows[j] == front[j]);
                assert(list.drop_last().contains(front[j].0));
                let m = choose|m: int| 0 <= m < list.drop_last().len() && list.drop_last()[m] == front[j].0;
                assert(list[m] == front[j].0);
            } else if j == n {
                assert(list[list.len() - 1] == rows[j].0);
            } else {
                assert(rows[j] == below[j - n - 1]);
            }
        }
    }
}

proof fn lemma_child_of_head(tasks: Seq<Task>, t: Task, level: nat, fuel: nat, k: int)
    requires
        fuel > 0,
        0 <= k < forest(tasks, arranged(children(tasks, t.id)), level + 1, (fuel - 1) as nat).len(),
        forest(tasks, arranged(children(tasks, t.id)), level + 1, (fuel - 1) as nat)[k].1 == level + 1,
    ensures
        forest(tasks, arranged(children(tasks, t.id)), level + 1, (fuel - 1) as nat)[k].0.parent_task_id
            == Some(t.id),
{
    let kids = arranged(children(tasks, t.id));
    let sub = forest(tasks, kids, level + 1, (fuel - 1) as nat);
    lemma_top_members(tasks, kids, level + 1, (fuel - 1) as nat);
    assert(kids.contains(sub[k].0));
    let m = choose|m: int| 0 <= m < kids.len() && kids[m] == sub[k].0;
    let c = children(tasks, t.id);
    lemma_arranged_members(c);
    let m2 = choose|m2: int| 0 <= m2 < c.len() && c[m2] == kids[m];
    lemma_filter_members(tasks, |v: Task| v.parent_task_id == Some(t.id), m2);
}

proof fn lemma_forest_parents(tasks: Seq<Task>, list: Seq<Task>, level: nat, fuel: nat)
    ensures
        forall|j: int|
            0 <= j < forest(tasks, list, level, fuel).len() && (#[trigger] forest(tasks, list, level, fuel)[j]).1
                > level ==> exists|i: int| parent_row(forest(tasks, list, level, fuel), i, j),
    decreases fuel, list.len(),
{
    if list.len() > 0 {
        let t = list.last();
        let front = forest(tasks, list.drop_last(), level, fuel);
        let below = subtree_below(tasks, t, level, fuel);
        let rows = forest(tasks, list, level, fuel);
        let kids = arranged(children(tasks, t.id));
        let sub = forest(tasks, kids, level + 1, (fuel - 1) as nat);
        lemma_forest_parents(tasks, list.drop_last(), level, fuel);
        lemma_below_deeper(tasks, t, level, fuel);
        if fuel > 0 {
            lemma_forest_parents(tasks, kids, level + 1, (fuel - 1) as nat);
            assert(below == sub);
        }
        assert(rows == front + seq![(t, level)] + below);
        let n = front.len() as int;
        assert forall|j: int| 0 <= j < rows.len() && (#[trigger] rows[j]).1 > level implies exists|i: int|
            parent_row(rows, i, j) by {
            if j < n {
                assert(rows[j] == front[j]);
                let i = choose|i: int| parent_row(front, i, j);
                assert forall|k: int| i < k < j implies (#[trigger] rows[k]).1 > rows[i].1 by {
                    assert(rows[k] == front[k]);
                }
                assert(parent_row(rows, i, j));
            } else if j > n {
                let k = j - n - 1;
                assert(rows[j] == below[k]);
                if sub[k].1 == level + 1 {
                    lemma_child_of_head(tasks, t, level, fuel, k);
                    assert(rows[n] == (t, level));
                    assert forall|q: int| n < q < j implies (#[trigger] rows[q]).1 > rows[n].1 by {
                        assert(rows[q] == below[q - n - 1]);
                    }
                    assert(parent_row(rows, n, j));
                } else {
                    let i2 = choose|i2: int| parent_row(sub, i2, k);
                    let i = i2 + n + 1;
                    assert(rows[i] == sub[i2]);
                    assert forall|q: int| i < q < j implies (#[trigger] rows[q]).1 > rows[i].1 by {
                        assert(rows[q] == sub[q - n - 1]);
                    }
                    assert(parent_row(rows, i, j));
                }
            }
        }
    }
}

/// Every display row below depth 0 has a parent row above it: one level
/// shallower, holding its parent task, with only deeper rows between them.
pub proof fn lemma_parent_row_above(tasks: Seq<Task>, j: int)
    requires
        0 <= j < flatten(tasks).len(),
        flatten(tasks)[j].1 > 0,
    ensures
        exists|i: int| parent_row(flatten(tasks), i, j),
{
    lemma_forest_parents(tasks, arranged(roots_among(tasks, tasks)), 0, tasks.len());
}

} // verus!
