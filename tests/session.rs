use todo_core::model::{Task, Workspace};
use todo_core::session::{App, Focus, InputMode, StoreRequest};
use todo_core::text::is_blank;

fn task(id: i64, completed: bool, parent: Option<i64>, created_at: i64) -> Task {
    Task {
        id,
        title: format!("T{}", id),
        description: None,
        completed,
        workspace_id: 10,
        parent_task_id: parent,
        created_at,
        updated_at: created_at,
    }
}

fn workspace(id: i64, name: &str) -> Workspace {
    Workspace { id, name: name.to_string(), created_at: 0, updated_at: 0 }
}

fn ids(app: &App) -> Vec<i64> {
    app.task_displays.iter().map(|d| d.task.id).collect()
}

fn loaded(tasks: Vec<Task>) -> App {
    let mut app = App::new();
    app.replace_workspaces(vec![workspace(10, "home"), workspace(20, "work")], vec![]);
    app.enter_workspace(Some(0), tasks);
    app.focus = Focus::Tasks;
    app
}

fn type_text(app: &mut App, s: &str) {
    for c in s.chars() {
        app.type_char(c);
    }
}

#[test]
fn new_session_is_empty() {
    let app = App::new();
    assert!(app.workspaces.is_empty());
    assert!(app.task_displays.is_empty());
    assert_eq!(app.workspace_cursor, None);
    assert_eq!(app.task_cursor, None);
    assert_eq!(app.focus, Focus::Workspaces);
    assert_eq!(app.input_mode, InputMode::Normal);
}

#[test]
fn toggling_sole_open_root_keeps_cursor_index() {
    let mut app = loaded(vec![task(1, false, None, 3), task(2, true, None, 2)]);
    assert_eq!(ids(&app), vec![1, 2]);
    assert_eq!(app.task_cursor, Some(0));
    assert_eq!(app.toggle_current_task_completion(), Some(StoreRequest::ToggleTask { task_id: 1 }));
    app.replace_tasks(vec![task(1, true, None, 3), task(2, true, None, 2)]);
    assert_eq!(ids(&app), vec![2, 1]);
    assert_eq!(app.task_cursor, Some(0));
}

#[test]
fn toggle_with_cursor_on_last_row_stays_there() {
    let mut app = loaded(vec![task(1, false, None, 1), task(2, true, None, 2)]);
    app.next_task();
    assert_eq!(app.task_cursor, Some(1));
    app.replace_tasks(vec![task(1, false, None, 1), task(2, false, None, 2)]);
    assert_eq!(app.task_cursor, Some(1));
}

#[test]
fn deleting_only_task_empties_display() {
    let mut app = loaded(vec![task(1, false, None, 1)]);
    assert_eq!(app.task_cursor, Some(0));
    app.start_delete_confirm();
    assert_eq!(app.input_mode, InputMode::DeleteConfirm);
    assert_eq!(app.delete_target.as_deref(), Some("T1"));
    assert_eq!(app.confirm_delete(), Some(StoreRequest::DeleteTask { task_id: 1 }));
    assert_eq!(app.input_mode, InputMode::Normal);
    assert_eq!(app.delete_target, None);
    app.replace_tasks(vec![]);
    assert!(app.task_displays.is_empty());
    assert_eq!(app.task_cursor, None);
}

#[test]
fn deleting_last_row_clamps_cursor() {
    let mut app = loaded(vec![task(1, false, None, 1), task(2, false, None, 2), task(3, false, None, 3)]);
    app.previous_task();
    assert_eq!(app.task_cursor, Some(2));
    assert_eq!(app.confirm_delete(), Some(StoreRequest::DeleteTask { task_id: 3 }));
    app.replace_tasks(vec![task(1, false, None, 1), task(2, false, None, 2)]);
    assert_eq!(app.task_cursor, Some(1));
}

#[test]
fn task_cursor_wraps_both_ways() {
    let mut app = loaded(vec![task(1, false, None, 1), task(2, false, None, 2)]);
    app.next_task();
    app.next_task();
    assert_eq!(app.task_cursor, Some(0));
    app.previous_task();
    assert_eq!(app.task_cursor, Some(1));
}

#[test]
fn switching_workspace_resets_task_cursor() {
    let mut app = loaded(vec![task(1, false, None, 1), task(2, false, None, 2)]);
    app.next_task();
    let target = app.next_workspace();
    assert_eq!(target, Some(1));
    assert_eq!(app.workspace_id_at(target), Some(20));
    app.enter_workspace(target, vec![task(5, false, None, 1), task(6, false, None, 2)]);
    assert_eq!(app.workspace_cursor, Some(1));
    assert_eq!(app.task_cursor, Some(0));
    assert_eq!(app.previous_workspace(), Some(0));
    app.enter_workspace(Some(0), vec![]);
    assert_eq!(app.task_cursor, None);
}

#[test]
fn workspace_cursor_clamps_when_list_shrinks() {
    let mut app = App::new();
    app.replace_workspaces(vec![workspace(1, "a"), workspace(2, "b"), workspace(3, "c")], vec![]);
    assert_eq!(app.workspace_cursor, Some(0));
    app.enter_workspace(Some(2), vec![]);
    app.replace_workspaces(vec![workspace(1, "a"), workspace(2, "b")], vec![task(4, false, None, 1)]);
    assert_eq!(app.workspace_cursor, Some(1));
    assert_eq!(app.task_cursor, Some(0));
    app.replace_workspaces(vec![], vec![]);
    assert_eq!(app.workspace_cursor, None);
}

#[test]
fn blank_input_creates_nothing() {
    let mut app = loaded(vec![]);
    app.start_creating();
    assert_eq!(app.input_mode, InputMode::Creating);
    type_text(&mut app, "  \t ");
    assert_eq!(app.finish_creating(), None);
    assert_eq!(app.input_mode, InputMode::Normal);
    assert!(app.input_buffer.is_empty());
}

#[test]
fn create_task_in_active_workspace() {
    let mut app = loaded(vec![task(1, false, None, 1)]);
    app.start_creating_task();
    type_text(&mut app, "buy milk");
    assert_eq!(
        app.finish_creating(),
        Some(StoreRequest::CreateTask { title: "buy milk".to_string(), workspace_id: 10 })
    );
}

#[test]
fn create_subtask_under_selected_task() {
    let mut app = loaded(vec![task(1, false, None, 1), task(2, false, None, 2)]);
    app.next_task();
    app.start_creating_subtask();
    type_text(&mut app, "sub");
    assert_eq!(
        app.finish_creating(),
        Some(StoreRequest::CreateSubtask { title: "sub".to_string(), workspace_id: 10, parent_task_id: 2 })
    );
}

#[test]
fn create_subtask_without_selection_creates_root_task() {
    let mut app = loaded(vec![]);
    app.start_creating_subtask();
    type_text(&mut app, "x");
    assert_eq!(
        app.finish_creating(),
        Some(StoreRequest::CreateTask { title: "x".to_string(), workspace_id: 10 })
    );
}

#[test]
fn create_workspace_with_workspace_focus() {
    let mut app = App::new();
    app.start_creating();
    type_text(&mut app, "garden");
    let r = app.finish_creating();
    assert_eq!(r, Some(StoreRequest::CreateWorkspace { name: "garden".to_string() }));
    assert!(r.unwrap().changes_workspaces());
}

#[test]
fn erase_char_removes_last_character() {
    let mut app = App::new();
    app.start_creating();
    type_text(&mut app, "ab");
    app.erase_char();
    assert_eq!(app.input_buffer, "a");
    app.erase_char();
    app.erase_char();
    assert_eq!(app.input_buffer, "");
}

#[test]
fn rename_starts_with_current_title() {
    let mut app = loaded(vec![task(1, false, None, 1)]);
    app.start_rename();
    assert_eq!(app.input_mode, InputMode::Insert);
    assert_eq!(app.input_buffer, "T1");
    app.erase_char();
    type_text(&mut app, "x");
    let r = app.finish_rename();
    assert_eq!(r, Some(StoreRequest::RenameTask { task_id: 1, title: "Tx".to_string() }));
    assert!(!r.unwrap().changes_workspaces());
    assert!(app.input_buffer.is_empty());
}

#[test]
fn rename_workspace_with_workspace_focus() {
    let mut app = loaded(vec![]);
    app.focus = Focus::Workspaces;
    app.start_rename();
    assert_eq!(app.input_buffer, "home");
    type_text(&mut app, "2");
    assert_eq!(
        app.finish_rename(),
        Some(StoreRequest::RenameWorkspace { workspace_id: 10, name: "home2".to_string() })
    );
}

#[test]
fn cancel_rename_asks_nothing() {
    let mut app = loaded(vec![task(1, false, None, 1)]);
    app.start_rename();
    app.cancel_rename();
    assert_eq!(app.input_mode, InputMode::Normal);
    assert!(app.input_buffer.is_empty());
}

#[test]
fn toggle_outside_task_focus_asks_nothing() {
    let mut app = loaded(vec![task(1, false, None, 1)]);
    app.focus = Focus::Workspaces;
    assert_eq!(app.toggle_current_task_completion(), None);
}

#[test]
fn delete_confirm_without_selection_does_nothing() {
    let mut app = loaded(vec![]);
    app.start_delete_confirm();
    assert_eq!(app.input_mode, InputMode::Normal);
    assert_eq!(app.delete_target, None);
}

#[test]
fn delete_workspace_request() {
    let mut app = loaded(vec![]);
    app.focus = Focus::Workspaces;
    app.start_delete_confirm();
    assert_eq!(app.delete_target.as_deref(), Some("home"));
    app.cancel_delete_confirm();
    assert_eq!(app.input_mode, InputMode::Normal);
    assert_eq!(app.confirm_delete(), Some(StoreRequest::DeleteWorkspace { workspace_id: 10 }));
}

#[test]
fn help_shows_and_hides() {
    let mut app = App::new();
    app.show_help();
    assert_eq!(app.input_mode, InputMode::Help);
    app.hide_help();
    assert_eq!(app.input_mode, InputMode::Normal);
}

#[test]
fn blank_text_detection() {
    assert!(is_blank(&String::new()));
    assert!(is_blank(&" \t\n ".to_string()));
    assert!(!is_blank(&" a ".to_string()));
}
