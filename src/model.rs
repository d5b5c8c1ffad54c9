use vstd::prelude::*;

verus! {

/// A named container of tasks, as the store hands it out.
///
/// Timestamps count microseconds since the Unix epoch, in UTC.
pub struct Workspace {
    pub id: i64,
    pub name: String,
    pub created_at: i64,
    pub updated_at: i64,
}

/// One task record. `parent_task_id` links a subtask to its parent.
///
/// Timestamps count microseconds since the Unix epoch, in UTC.
pub struct Task {
    pub id: i64,
    pub title: String,
    pub description: Option<String>,
    pub completed: bool,
    pub workspace_id: i64,
    pub parent_task_id: Option<i64>,
    pub created_at: i64,
    pub updated_at: i64,
}

/// One line of the flattened task list: the task, its nesting depth
/// (0 for a root) and its position in the list.
pub struct TaskDisplay {
    pub task: Task,
    pub level: usize,
    pub index: usize,
}

impl Task {
    /// A copy equal to `self` in every field.
    pub fn duplicate(&self) -> (r: Task)
        ensures
            r == *self,
    {
        let description = match &self.description {
            Some(d) => Some(d.clone()),
            None => None,
        };
        Task {
            id: self.id,
            title: self.title.clone(),
            description,
            completed: self.completed,
            workspace_id: self.workspace_id,
            parent_task_id: self.parent_task_id,
            created_at: self.created_at,
            updated_at: self.updated_at,
        }
    }
}

} // verus!
