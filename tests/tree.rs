use todo_core::model::{Task, TaskDisplay};
use todo_core::tree::build_task_hierarchy;

fn task(id: i64, completed: bool, parent: Option<i64>, created_at: i64) -> Task {
    Task {
        id,
        title: format!("T{}", id),
        description: None,
        completed,
        workspace_id: 1,
        parent_task_id: parent,
        created_at,
        updated_at: created_at,
    }
}

fn shape(rows: &[TaskDisplay]) -> Vec<(i64, usize)> {
    rows.iter().map(|d| (d.task.id, d.level)).collect()
}

#[test]
fn empty_task_list_gives_empty_display() {
    assert!(build_task_hierarchy(&vec![]).is_empty());
}

#[test]
fn open_root_comes_before_completed_root() {
    let tasks = vec![task(1, false, None, 1), task(2, true, None, 2)];
    assert_eq!(shape(&build_task_hierarchy(&tasks)), vec![(1, 0), (2, 0)]);
}

#[test]
fn open_root_first_even_when_listed_last() {
    let tasks = vec![task(2, true, None, 1), task(1, false, None, 2)];
    assert_eq!(shape(&build_task_hierarchy(&tasks)), vec![(1, 0), (2, 0)]);
}

#[test]
fn child_follows_its_parent_before_next_root() {
    let tasks = vec![task(1, false, None, 1), task(2, true, None, 2), task(3, true, Some(1), 3)];
    let rows = build_task_hierarchy(&tasks);
    assert_eq!(shape(&rows), vec![(1, 0), (3, 1), (2, 0)]);
    for (i, d) in rows.iter().enumerate() {
        assert_eq!(d.index, i);
    }
}

#[test]
fn roots_ordered_by_creation_time_within_status() {
    let tasks = vec![
        task(1, false, None, 30),
        task(2, true, None, 5),
        task(3, false, None, 10),
        task(4, true, None, 1),
        task(5, false, None, 20),
    ];
    assert_eq!(
        shape(&build_task_hierarchy(&tasks)),
        vec![(3, 0), (5, 0), (1, 0), (4, 0), (2, 0)]
    );
}

#[test]
fn equal_creation_times_keep_input_order() {
    let tasks = vec![task(7, false, None, 4), task(3, false, None, 4), task(5, false, None, 4)];
    assert_eq!(shape(&build_task_hierarchy(&tasks)), vec![(7, 0), (3, 0), (5, 0)]);
}

#[test]
fn children_ordered_like_roots_at_every_level() {
    let tasks = vec![
        task(1, false, None, 1),
        task(2, true, Some(1), 2),
        task(3, false, Some(1), 3),
        task(4, false, Some(3), 9),
        task(5, false, Some(3), 4),
        task(6, true, Some(2), 5),
    ];
    assert_eq!(
        shape(&build_task_hierarchy(&tasks)),
        vec![(1, 0), (3, 1), (5, 2), (4, 2), (2, 1), (6, 2)]
    );
}

#[test]
fn dangling_parent_is_promoted_to_root() {
    let tasks = vec![task(1, false, None, 5), task(2, false, Some(99), 1)];
    assert_eq!(shape(&build_task_hierarchy(&tasks)), vec![(2, 0), (1, 0)]);
}

#[test]
fn tasks_in_a_parent_cycle_are_not_shown() {
    let tasks = vec![task(1, false, Some(2), 1), task(2, false, Some(1), 2), task(3, false, None, 3)];
    assert_eq!(shape(&build_task_hierarchy(&tasks)), vec![(3, 0)]);
}

#[test]
fn duplicated_identifiers_still_terminate() {
    let tasks = vec![task(1, false, None, 1), task(1, false, Some(1), 2)];
    let rows = build_task_hierarchy(&tasks);
    assert_eq!(rows[0].task.id, 1);
    assert_eq!(rows[0].level, 0);
    assert!(rows.len() <= 3);
}

#[test]
fn rebuilding_twice_gives_identical_rows() {
    let tasks = vec![
        task(1, false, None, 1),
        task(2, true, Some(1), 2),
        task(3, false, Some(1), 2),
        task(4, true, None, 0),
    ];
    let a = build_task_hierarchy(&tasks);
    let b = build_task_hierarchy(&tasks);
    assert_eq!(shape(&a), shape(&b));
    let ia: Vec<usize> = a.iter().map(|d| d.index).collect();
    let ib: Vec<usize> = b.iter().map(|d| d.index).collect();
    assert_eq!(ia, ib);
}

#[test]
fn subtree_rows_are_contiguous_and_one_level_deeper() {
    let tasks = vec![
        task(1, false, None, 1),
        task(2, false, Some(1), 2),
        task(3, false, Some(2), 3),
        task(4, false, None, 4),
        task(5, false, Some(4), 5),
    ];
    let rows = build_task_hierarchy(&tasks);
    assert_eq!(shape(&rows), vec![(1, 0), (2, 1), (3, 2), (4, 0), (5, 1)]);
}

#[test]
fn display_rows_carry_the_task_fields() {
    let mut t = task(8, true, None, 3);
    t.description = Some(String::from("notes"));
    let rows = build_task_hierarchy(&vec![t]);
    assert_eq!(rows[0].task.title, "T8");
    assert_eq!(rows[0].task.description.as_deref(), Some("notes"));
    assert!(rows[0].task.completed);
}
