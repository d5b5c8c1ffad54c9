//! The interactive session: which list has focus, where the cursors stand,
//! the input line, and the store request that each command asks for.
//!
//! Store calls are made by the caller. A command that needs one returns a
//! [`StoreRequest`] without touching the visible lists; after the call
//! succeeds the caller hands the fresh records back through
//! [`App::enter_workspace`], [`App::replace_workspaces`] or
//! [`App::replace_tasks`]. A failed call thus leaves lists and cursors as they
//! were.
use vstd::prelude::*;
use crate::cursor::{
    advance, advanced, clamp, clamped, first_of, in_bounds, retreat, retreated,
};
use crate::model::{Task, TaskDisplay, Workspace};
use crate::text::{is_blank, pop_char, push_char, trimmed};
use crate::tree::{build_task_hierarchy, flatten, indexed, rows_of};

verus! {

/// The list that cursor keys move in.
#[derive(PartialEq, Eq, Structural, Clone, Copy, Debug)]
pub enum Focus {
    Workspaces,
    Tasks,
}

/// What keys do at the moment.
#[derive(PartialEq, Eq, Structural, Clone, Copy, Debug)]
pub enum InputMode {
    Normal,
    Insert,
    DeleteConfirm,
    Help,
    Creating,
}

/// A store operation that a command asks the caller to perform.
#[derive(PartialEq, Eq, Debug)]
pub enum StoreRequest {
    CreateWorkspace { name: String },
    CreateTask { title: String, workspace_id: i64 },
    CreateSubtask { title: String, workspace_id: i64, parent_task_id: i64 },
    ToggleTask { task_id: i64 },
    RenameWorkspace { workspace_id: i64, name: String },
    RenameTask { task_id: i64, title: String },
    DeleteWorkspace { workspace_id: i64 },
    DeleteTask { task_id: i64 },
}

impl StoreRequest {
    /// Whether success changes the workspace list; otherwise it changes only
    /// the tasks of the active workspace.
    pub fn changes_workspaces(&self) -> (r: bool)
        ensures
            r == (self is CreateWorkspace || self is RenameWorkspace || self is DeleteWorkspace),
    {
        match self {
            StoreRequest::CreateWorkspace { .. } => true,
            StoreRequest::RenameWorkspace { .. } => true,
            StoreRequest::DeleteWorkspace { .. } => true,
            _ => false,
        }
    }
}

/// Session state over the workspaces and the active workspace's tasks.
pub struct App {
    pub workspaces: Vec<Workspace>,
    pub tasks: Vec<Task>,
    pub task_displays: Vec<TaskDisplay>,
    pub workspace_cursor: Option<usize>,
    pub task_cursor: Option<usize>,
    pub focus: Focus,
    pub input_mode: InputMode,
    pub input_buffer: String,
    pub delete_target: Option<String>,
    pub creating_subtask: bool,
}

impl App {
    /// The display list is built from `tasks`, and both cursors point into
    /// their lists.
    pub open spec fn wf(&self) -> bool {
        &&& rows_of(self.task_displays@) == flatten(self.tasks@)
        &&& indexed(self.task_displays@)
        &&& in_bounds(self.workspace_cursor, self.workspaces@.len())
        &&& in_bounds(self.task_cursor, self.task_displays@.len())
    }

    /// The workspace under the workspace cursor.
    pub open spec fn current_workspace(&self) -> Option<Workspace> {
        match self.workspace_cursor {
            Some(i) => Some(self.workspaces@[i as int]),
            None => None,
        }
    }

    /// The task under the task cursor.
    pub open spec fn current_task(&self) -> Option<Task> {
        match self.task_cursor {
            Some(i) => Some(self.task_displays@[i as int].task),
            None => None,
        }
    }

    /// The request that committing the input line in `Creating` mode asks
    /// for: nothing for blank text or when no workspace is selected; a
    /// subtask of the task under the cursor when one was asked for and a task
    /// is selected; a root task or a workspace otherwise, by focus.
    pub open spec fn create_request(&self) -> Option<StoreRequest> {
        if trimmed(self.input_buffer@).len() == 0 {
            None
        } else {
            match self.focus {
                Focus::Workspaces => Some(StoreRequest::CreateWorkspace { name: self.input_buffer }),
                Focus::Tasks => match self.current_workspace() {
                    None => None,
                    Some(w) => if self.creating_subtask && self.current_task() is Some {
                        Some(
                            StoreRequest::CreateSubtask {
                                title: self.input_buffer,
                                workspace_id: w.id,
                                parent_task_id: self.current_task()->0.id,
                            },
                        )
                    } else {
                        Some(StoreRequest::CreateTask { title: self.input_buffer, workspace_id: w.id })
                    },
                },
            }
        }
    }

    /// The request that committing the input line in `Insert` mode asks for:
    /// renaming the focused workspace or task under the cursor, unless the
    /// text is blank or nothing is selected.
    pub open spec fn rename_request(&self) -> Option<StoreRequest> {
        if trimmed(self.input_buffer@).len() == 0 {
            None
        } else {
            match self.focus {
                Focus::Workspaces => match self.current_workspace() {
                    Some(w) => Some(StoreRequest::RenameWorkspace { workspace_id: w.id, name: self.input_buffer }),
                    None => None,
                },
                Focus::Tasks => match self.current_task() {
                    Some(t) => Some(StoreRequest::RenameTask { task_id: t.id, title: self.input_buffer }),
                    None => None,
                },
            }
        }
    }

    /// The request that confirming a deletion asks for: the focused workspace
    /// or task under the cursor, if any.
    pub open spec fn delete_request(&self) -> Option<StoreRequest> {
        match self.focus {
            Focus::Workspaces => match self.current_workspace() {
                Some(w) => Some(StoreRequest::DeleteWorkspace { workspace_id: w.id }),
                None => None,
            },
            Focus::Tasks => match self.current_task() {
                Some(t) => Some(StoreRequest::DeleteTask { task_id: t.id }),
                None => None,
            },
        }
    }

    /// The name of the focused entity under the cursor, if one is selected.
    pub open spec fn focused_name(&self) -> Option<String> {
        match self.focus {
            Focus::Workspaces => match self.current_workspace() {
                Some(w) => Some(w.name),
                None => None,
            },
            Focus::Tasks => match self.current_task() {
                Some(t) => Some(t.title),
                None => None,
            },
        }
    }

    /// Lists, cursors and focus are those of `other`.
    pub open spec fn same_view(&self, other: &App) -> bool {
        &&& self.workspaces == other.workspaces
        &&& self.tasks == other.tasks
        &&& self.task_displays == other.task_displays
        &&& self.workspace_cursor == other.workspace_cursor
        &&& self.task_cursor == other.task_cursor
        &&& self.focus == other.focus
    }

    /// An empty session with focus on the workspaces.
    pub fn new() -> (r: App)
        ensures
            r.wf(),
            r.workspaces@.len() == 0,
            r.tasks@.len() == 0,
            r.workspace_cursor is None,
            r.task_cursor is None,
            r.focus == Focus::Workspaces,
            r.input_mode == InputMode::Normal,
            r.input_buffer@.len() == 0,
            r.delete_target is None,
            !r.creating_subtask,
    {
        let tasks: Vec<Task> = Vec::new();
        let task_displays = build_task_hierarchy(&tasks);
        App {
            workspaces: Vec::new(),
            tasks,
            task_displays,
            workspace_cursor: None,
            task_cursor: None,
            focus: Focus::Workspaces,
            input_mode: InputMode::Normal,
            input_buffer: String::new(),
            delete_target: None,
            creating_subtask: false,
        }
    }

    /// Identifier of the workspace at `index`, if there is one.
    pub fn workspace_id_at(&self, index: Option<usize>) -> (r: Option<i64>)
        ensures
            r == (match index {
                Some(i) => if i < self.workspaces@.len() {
                    Some(self.workspaces@[i as int].id)
                } else {
                    None
                },
                None => None,
            }),
    {
        match index {
            Some(i) => if i < self.workspaces.len() {
                Some(self.workspaces[i].id)
            } else {
                None
            },
            None => None,
        }
    }

    /// Where the workspace cursor goes on a step down, wrapping at the end.
    pub fn next_workspace(&self) -> (r: Option<usize>)
        ensures
            r == advanced(self.workspace_cursor, self.workspaces@.len()),
            in_bounds(r, self.workspaces@.len()),
    {
        advance(self.workspace_cursor, self.workspaces.len())
    }

    /// Where the workspace cursor goes on a step up, wrapping at the start.
    pub fn previous_workspace(&self) -> (r: Option<usize>)
        ensures
            r == retreated(self.workspace_cursor, self.workspaces@.len()),
            in_bounds(r, self.workspaces@.len()),
    {
        retreat(self.workspace_cursor, self.workspaces.len())
    }

    /// Selects the workspace at `index` and shows `tasks`, its tasks; the task
    /// cursor is reset to the first row.
    pub fn enter_workspace(&mut self, index: Option<usize>, tasks: Vec<Task>)
        requires
            old(self).wf(),
            in_bounds(index, old(self).workspaces@.len()),
        ensures
            final(self).wf(),
            final(self).workspaces == old(self).workspaces,
            final(self).workspace_cursor == index,
            final(self).tasks@ == tasks@,
            final(self).task_cursor == (if final(self).task_displays@.len() == 0 {
                None::<usize>
            } else {
                Some(0usize)
            }),
            final(self).focus == old(self).focus,
            final(self).input_mode == old(self).input_mode,
            final(self).input_buffer == old(self).input_buffer,
    {
        self.workspace_cursor = index;
        self.load_tasks_for_selected_workspace(tasks);
    }

    /// Shows `tasks` as the active workspace's tasks, with the task cursor
    /// reset to the first row (or to nothing when there are none).
    pub fn load_tasks_for_selected_workspace(&mut self, tasks: Vec<Task>)
        requires
            in_bounds(old(self).workspace_cursor, old(self).workspaces@.len()),
        ensures
            final(self).wf(),
            final(self).workspaces == old(self).workspaces,
            final(self).workspace_cursor == old(self).workspace_cursor,
            final(self).tasks@ == tasks@,
            final(self).task_cursor == (if final(self).task_displays@.len() == 0 {
                None::<usize>
            } else {
                Some(0usize)
            }),
            final(self).focus == old(self).focus,
            final(self).input_mode == old(self).input_mode,
            final(self).input_buffer == old(self).input_buffer,
    {
        let displays = build_task_hierarchy(&tasks);
        self.task_cursor = first_of(displays.len());
        self.tasks = tasks;
        self.task_displays = displays;
    }

    /// Replaces the workspace list after a change to it. The workspace cursor
    /// is clamped into the new list; `tasks` are the tasks of the workspace it
    /// then points at, shown with the task cursor on the first row.
    pub fn replace_workspaces(&mut self, workspaces: Vec<Workspace>, tasks: Vec<Task>)
        requires
            old(self).wf(),
        ensures
            final(self).wf(),
            final(self).workspaces@ == workspaces@,
            final(self).workspace_cursor == clamped(old(self).workspace_cursor, workspaces@.len()),
            final(self).tasks@ == tasks@,
            final(self).task_cursor == (if final(self).task_displays@.len() == 0 {
                None::<usize>
            } else {
                Some(0usize)
            }),
            final(self).focus == old(self).focus,
            final(self).input_mode == old(self).input_mode,
            final(self).input_buffer == old(self).input_buffer,
    {
        self.workspace_cursor = clamp(self.workspace_cursor, workspaces.len());
        self.workspaces = workspaces;
        self.load_tasks_for_selected_workspace(tasks);
    }

    /// Replaces the active workspace's tasks after a change to them; the task
    /// cursor is clamped into the new display list.
    pub fn replace_tasks(&mut self, tasks: Vec<Task>)
        requires
            old(self).wf(),
        ensures
            final(self).wf(),
            final(self).workspaces == old(self).workspaces,
            final(self).workspace_cursor == old(self).workspace_cursor,
            final(self).tasks@ == tasks@,
            final(self).task_cursor == clamped(old(self).task_cursor, final(self).task_displays@.len()),
            final(self).focus == old(self).focus,
            final(self).input_mode == old(self).input_mode,
            final(self).input_buffer == old(self).input_buffer,
    {
        let displays = build_task_hierarchy(&tasks);
        self.task_cursor = clamp(self.task_cursor, displays.len());
        self.tasks = tasks;
        self.task_displays = displays;
    }

    /// Moves the task cursor one row down, wrapping from the last to the first.
    pub fn next_task(&mut self)
        requires
            old(self).wf(),
        ensures
            final(self).wf(),
            final(self).task_cursor == advanced(old(self).task_cursor, old(self).task_displays@.len()),
            final(self).task_displays == old(self).task_displays,
            final(self).tasks == old(self).tasks,
            final(self).workspaces == old(self).workspaces,
            final(self).workspace_cursor == old(self).workspace_cursor,
            final(self).input_mode == old(self).input_mode,
    {
        self.task_cursor = advance(self.task_cursor, self.task_displays.len());
    }

    /// Moves the task cursor one row up, wrapping from the first to the last.
    pub fn previous_task(&mut self)
        requires
            old(self).wf(),
        ensures
            final(self).wf(),
            final(self).task_cursor == retreated(old(self).task_cursor, old(self).task_displays@.len()),
            final(self).task_displays == old(self).task_displays,
            final(self).tasks == old(self).tasks,
            final(self).workspaces == old(self).workspaces,
            final(self).workspace_cursor == old(self).workspace_cursor,
            final(self).input_mode == old(self).input_mode,
    {
        self.task_cursor = retreat(self.task_cursor, self.task_displays.len());
    }
    fn focused_name_of(&self) -> (r: Option<String>)
        requires
            self.wf(),
        ensures
            r == self.focused_name(),
    {
        match self.focus {
            Focus::Workspaces => match self.workspace_cursor {
                Some(i) => Some(self.workspaces[i].name.clone()),
                None => None,
            },
            Focus::Tasks => match self.task_cursor {
                Some(i) => Some(self.task_displays[i].task.title.clone()),
                None => None,
            },
        }
    }

    /// Opens the input line to add a workspace or, with focus on tasks, a
    /// root task.
    pub fn start_creating(&mut self)
        requires
            old(self).wf(),
        ensures
            final(self).wf(),
            final(self).same_view(&*old(self)),
            final(self).input_mode == InputMode::Creating,
            final(self).input_buffer@.len() == 0,
            !final(self).creating_subtask,
            final(self).delete_target == old(self).delete_target,
    {
        self.start_creating_task();
    }

    /// Opens the input line to add a workspace or, with focus on tasks, a
    /// root task.
    pub fn start_creating_task(&mut self)
        requires
            old(self).wf(),
        ensures
            final(self).wf(),
            final(self).same_view(&*old(self)),
            final(self).input_mode == InputMode::Creating,
            final(self).input_buffer@.len() == 0,
            !final(self).creating_subtask,
            final(self).delete_target == old(self).delete_target,
    {
        self.input_buffer = String::new();
        self.creating_subtask = false;
        self.input_mode = InputMode::Creating;
    }

    /// Opens the input line to add a subtask of the task under the cursor.
    pub fn start_creating_subtask(&mut self)
        requires
            old(self).wf(),
        ensures
            final(self).wf(),
            final(self).same_view(&*old(self)),
            final(self).input_mode == InputMode::Creating,
            final(self).input_buffer@.len() == 0,
            final(self).creating_subtask,
            final(self).delete_target == old(self).delete_target,
    {
        self.input_buffer = String::new();
        self.creating_subtask = true;
        self.input_mode = InputMode::Creating;
    }

    /// Commits the input line of `Creating` mode: returns the store request
    /// to perform, if any, and goes back to `Normal` mode with an empty line.
    pub fn finish_creating(&mut self) -> (r: Option<StoreRequest>)
        requires
            old(self).wf(),
        ensures
            r == old(self).create_request(),
            final(self).wf(),
            final(self).same_view(&*old(self)),
            final(self).input_mode == InputMode::Normal,
            final(self).input_buffer@.len() == 0,
            final(self).creating_subtask == old(self).creating_subtask,
            final(self).delete_target == old(self).delete_target,
    {
        let r = if is_blank(&self.input_buffer) {
            None
        } else {
            match self.focus {
                Focus::Workspaces => Some(StoreRequest::CreateWorkspace { name: self.input_buffer.clone() }),
                Focus::Tasks => match self.workspace_cursor {
                    None => None,
                    Some(w) => {
                        let workspace_id = self.workspaces[w].id;
                        let title = self.input_buffer.clone();
                        match self.task_cursor {
                            Some(i) if self.creating_subtask => Some(
                                StoreRequest::CreateSubtask {
                                    title,
                                    workspace_id,
                                    parent_task_id: self.task_displays[i].task.id,
                                },
                            ),
                            _ => Some(StoreRequest::CreateTask { title, workspace_id }),
                        }
                    },
                },
            }
        };
        self.cancel_creating();
        r
    }

    /// Closes the input line of `Creating` mode without a request.
    pub fn cancel_creating(&mut self)
        requires
            old(self).wf(),
        ensures
            final(self).wf(),
            final(self).same_view(&*old(self)),
            final(self).input_mode == InputMode::Normal,
            final(self).input_buffer@.len() == 0,
            final(self).creating_subtask == old(self).creating_subtask,
            final(self).delete_target == old(self).delete_target,
    {
        self.input_mode = InputMode::Normal;
        self.input_buffer = String::new();
    }

    /// The request that flips the completion of the task under the cursor,
    /// when the tasks have focus.
    pub fn toggle_current_task_completion(&self) -> (r: Option<StoreRequest>)
        requires
            self.wf(),
        ensures
            r == (if self.focus == Focus::Tasks && self.current_task() is Some {
                Some(StoreRequest::ToggleTask { task_id: self.current_task()->0.id })
            } else {
                None
            }),
    {
        if self.focus == Focus::Tasks {
            if let Some(i) = self.task_cursor {
                return Some(StoreRequest::ToggleTask { task_id: self.task_displays[i].task.id });
            }
        }
        None
    }

    /// Opens the input line in `Insert` mode, holding the current name of
    /// the focused workspace or task (empty when nothing is selected).
    pub fn start_rename(&mut self)
        requires
            old(self).wf(),
        ensures
            final(self).wf(),
            final(self).same_view(&*old(self)),
            final(self).input_mode == InputMode::Insert,
            final(self).input_buffer@ == (match old(self).focused_name() {
                Some(n) => n@,
                None => Seq::<char>::empty(),
            }),
            final(self).delete_target == old(self).delete_target,
            final(self).creating_subtask == old(self).creating_subtask,
    {
        self.input_buffer = match self.focused_name_of() {
            Some(n) => n,
            None => String::new(),
        };
        self.input_mode = InputMode::Insert;
    }

    /// Commits the input line of `Insert` mode: returns the rename request,
    /// if any, and goes back to `Normal` mode with an empty line.
    pub fn finish_rename(&mut self) -> (r: Option<StoreRequest>)
        requires
            old(self).wf(),
        ensures
            r == old(self).rename_request(),
            final(self).wf(),
            final(self).same_view(&*old(self)),
            final(self).input_mode == InputMode::Normal,
            final(self).input_buffer@.len() == 0,
            final(self).delete_target == old(self).delete_target,
            final(self).creating_subtask == old(self).creating_subtask,
    {
        let r = if is_blank(&self.input_buffer) {
            None
        } else {
            match self.focus {
                Focus::Workspaces => match self.workspace_cursor {
                    Some(i) => Some(
                        StoreRequest::RenameWorkspace {
                            workspace_id: self.workspaces[i].id,
                            name: self.input_buffer.clone(),
                        },
                    ),
                    None => None,
                },
                Focus::Tasks => match self.task_cursor {
                    Some(i) => Some(
                        StoreRequest::RenameTask {
                            task_id: self.task_displays[i].task.id,
                            title: self.input_buffer.clone(),
                        },
                    ),
                    None => None,
                },
            }
        };
        self.cancel_rename();
        r
    }

    /// Closes the input line of `Insert` mode without a request.
    pub fn cancel_rename(&mut self)
        requires
            old(self).wf(),
        ensures
            final(self).wf(),
            final(self).same_view(&*old(self)),
            final(self).input_mode == InputMode::Normal,
            final(self).input_buffer@.len() == 0,
            final(self).delete_target == old(self).delete_target,
            final(self).creating_subtask == old(self).creating_subtask,
    {
        self.input_mode = InputMode::Normal;
        self.input_buffer = String::new();
    }

    /// Asks for confirmation before deleting the focused entity under the
    /// cursor; does nothing when nothing is selected.
    pub fn start_delete_confirm(&mut self)
        requires
            old(self).wf(),
        ensures
            final(self).wf(),
            final(self).same_view(&*old(self)),
            final(self).input_buffer == old(self).input_buffer,
            final(self).creating_subtask == old(self).creating_subtask,
            old(self).focused_name() is None ==> final(self).input_mode == old(self).input_mode
                && final(self).delete_target == old(self).delete_target,
            old(self).focused_name() is Some ==> final(self).input_mode == InputMode::DeleteConfirm
                && final(self).delete_target == old(self).focused_name(),
    {
        let name = self.focused_name_of();
        if name.is_some() {
            self.delete_target = name;
            self.input_mode = InputMode::DeleteConfirm;
        }
    }

    /// Confirms the deletion: returns the delete request, if anything is
    /// selected, and goes back to `Normal` mode.
    pub fn confirm_delete(&mut self) -> (r: Option<StoreRequest>)
        requires
            old(self).wf(),
        ensures
            r == old(self).delete_request(),
            final(self).wf(),
            final(self).same_view(&*old(self)),
            final(self).input_mode == InputMode::Normal,
            final(self).delete_target is None,
            final(self).input_buffer == old(self).input_buffer,
            final(self).creating_subtask == old(self).creating_subtask,
    {
        let r = match self.focus {
            Focus::Workspaces => match self.workspace_cursor {
                Some(i) => Some(StoreRequest::DeleteWorkspace { workspace_id: self.workspaces[i].id }),
                None => None,
            },
            Focus::Tasks => match self.task_cursor {
                Some(i) => Some(StoreRequest::DeleteTask { task_id: self.task_displays[i].task.id }),
                None => None,
            },
        };
        self.cancel_delete_confirm();
        r
    }

    /// Drops the pending deletion and goes back to `Normal` mode.
    pub fn cancel_delete_confirm(&mut self)
        requires
            old(self).wf(),
        ensures
            final(self).wf(),
            final(self).same_view(&*old(self)),
            final(self).input_mode == InputMode::Normal,
            final(self).delete_target is None,
            final(self).input_buffer == old(self).input_buffer,
            final(self).creating_subtask == old(self).creating_subtask,
    {
        self.input_mode = InputMode::Normal;
        self.delete_target = None;
    }

    /// Shows the help panel.
    pub fn show_help(&mut self)
        requires
            old(self).wf(),
        ensures
            final(self).wf(),
            final(self).same_view(&*old(self)),
            final(self).input_mode == InputMode::Help,
            final(self).input_buffer == old(self).input_buffer,
            final(self).delete_target == old(self).delete_target,
            final(self).creating_subtask == old(self).creating_subtask,
    {
        self.input_mode = InputMode::Help;
    }

    /// Hides the help panel.
    pub fn hide_help(&mut self)
        requires
            old(self).wf(),
        ensures
            final(self).wf(),
            final(self).same_view(&*old(self)),
            final(self).input_mode == InputMode::Normal,
            final(self).input_buffer == old(self).input_buffer,
            final(self).delete_target == old(self).delete_target,
            final(self).creating_subtask == old(self).creating_subtask,
    {
        self.input_mode = InputMode::Normal;
    }

    /// Appends `c` to the input line.
    pub fn type_char(&mut self, c: char)
        requires
            old(self).wf(),
        ensures
            final(self).wf(),
            final(self).same_view(&*old(self)),
            final(self).input_buffer@ == old(self).input_buffer@.push(c),
            final(self).input_mode == old(self).input_mode,
            final(self).delete_target == old(self).delete_target,
            final(self).creating_subtask == old(self).creating_subtask,
    {
        push_char(&mut self.input_buffer, c);
    }

    /// Removes the last character of the input line, if any.
    pub fn erase_char(&mut self)
        requires
            old(self).wf(),
        ensures
            final(self).wf(),
            final(self).same_view(&*old(self)),
            old(self).input_buffer@.len() == 0 ==> final(self).input_buffer@.len() == 0,
            old(self).input_buffer@.len() > 0 ==> final(self).input_buffer@ == old(self).input_buffer@.drop_last(),
            final(self).input_mode == old(self).input_mode,
            final(self).delete_target == old(self).delete_target,
            final(self).creating_subtask == old(self).creating_subtask,
    {
        let _ = pop_char(&mut self.input_buffer);
    }
}

} // verus!
