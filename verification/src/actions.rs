//! The actions' data: each action carries the task set it works on and the
//! undo records it produces.  Carrying out an action (printing, exporting)
//! is I/O and lives with the caller.

use vstd::prelude::*;

use crate::manager::TaskData;
use crate::storage::ActionUndo;

verus! {

/// What every task action carries.
pub struct BaseTaskAction {
    pub tasks: TaskData,
    pub undos: Vec<ActionUndo>,
}

impl BaseTaskAction {
    pub fn get_tasks(&self) -> (r: &TaskData)
        ensures
            r@ == self.tasks@,
    {
        &self.tasks
    }

    pub fn set_tasks(&mut self, tasks: TaskData)
        ensures
            final(self).tasks@ == tasks@,
            final(self).undos == old(self).undos,
    {
        self.tasks = tasks;
    }

    pub fn get_undos(&self) -> (r: &Vec<ActionUndo>)
        ensures
            r == &self.undos,
    {
        &self.undos
    }

    pub fn set_undos(&mut self, undos: Vec<ActionUndo>)
        ensures
            final(self).undos == undos,
            final(self).tasks@ == old(self).tasks@,
    {
        self.undos = undos;
    }
}

/// Prints the tasks as JSON; the printing itself is the caller's I/O.
pub struct ExportTaskAction {
    pub base: BaseTaskAction,
}

impl ExportTaskAction {
    pub fn get_command_description() -> (r: String)
        ensures
            r@
                == "Print the tasks as JSON format.\nThis is useful for scripting access to Rusk.\nBoth <filters> and <arguments> are treated as filter\n"@,
    {
        "Print the tasks as JSON format.\nThis is useful for scripting access to Rusk.\nBoth <filters> and <arguments> are treated as filter\n".to_owned()
    }
}

/// Shows the matched tasks' details; the printing itself is the caller's
/// I/O.
pub struct InfoTaskAction {
    pub base: BaseTaskAction,
}

impl InfoTaskAction {
    pub fn get_command_description() -> (r: String)
        ensures
            r@ == "Show a list of tasks"@,
    {
        "Show a list of tasks".to_owned()
    }
}

} // verus!
