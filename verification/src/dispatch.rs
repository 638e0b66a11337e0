//! What the supervisor does for a command. The registry decides; the caller
//! does the work that touches processes and files, and comes back to the
//! registry with the outcome.

use crate::command::{Command, CommandModel};
use crate::registry::{
    handle_in, row_views, rows_of, Registry, RegistryError, RowModel, ViewRow, WorkerModel,
};
use crate::sink::log_name_of;
use vstd::prelude::*;

verus! {

/// What the caller is to do next.
#[derive(Debug, Clone, PartialEq, Eq)]
pub enum Action {
    /// Launch the worker, then hand the outcome to `Registry::start` and save
    /// the roster text that it returns.
    Launch { file_name: Vec<u8>, logical_name: Vec<u8> },
    /// Say that there are no workers.
    ReportEmpty,
    /// Show the listing.
    ShowTable { rows: Vec<ViewRow> },
    /// Terminate the process `pid`, wait for it to exit, then call
    /// `Registry::remove_at` with `index`.
    Terminate { index: usize, pid: u32 },
    /// Show what the file `log_file` holds.
    ReadLog { log_file: Vec<u8> },
    /// Leave.
    Exit,
    /// Tell the user why nothing was done.
    Refuse { reason: RegistryError },
}

/// An action as a mathematical value.
pub enum ActionModel {
    Launch { file_name: Seq<u8>, logical_name: Seq<u8> },
    ReportEmpty,
    ShowTable { rows: Seq<RowModel> },
    Terminate { index: usize, pid: u32 },
    ReadLog { log_file: Seq<u8> },
    Exit,
    Refuse { reason: RegistryError },
}

impl View for Action {
    type V = ActionModel;

    open spec fn view(&self) -> ActionModel {
        match *self {
            Action::Launch { file_name, logical_name } => ActionModel::Launch {
                file_name: file_name@,
                logical_name: logical_name@,
            },
            Action::ReportEmpty => ActionModel::ReportEmpty,
            Action::ShowTable { rows } => ActionModel::ShowTable { rows: row_views(rows@) },
            Action::Terminate { index, pid } => ActionModel::Terminate { index, pid },
            Action::ReadLog { log_file } => ActionModel::ReadLog { log_file: log_file@ },
            Action::Exit => ActionModel::Exit,
            Action::Refuse { reason } => ActionModel::Refuse { reason },
        }
    }
}

/// The action that a command calls for, given the workers `ws` and the time
/// `now`.
pub open spec fn action_of(ws: Seq<WorkerModel>, command: CommandModel, now: u64) -> ActionModel {
    match command {
        CommandModel::Start { file_name, logical_name } => ActionModel::Launch {
            file_name,
            logical_name,
        },
        CommandModel::Status => if ws.len() == 0 {
            ActionModel::ReportEmpty
        } else {
            ActionModel::ShowTable { rows: rows_of(ws, now) }
        },
        CommandModel::Remove { index } => match handle_in(ws, index) {
            Ok(pid) => ActionModel::Terminate { index, pid },
            Err(reason) => ActionModel::Refuse { reason },
        },
        CommandModel::Logs { index } => if index >= ws.len() {
            ActionModel::Refuse { reason: RegistryError::NoSuchIndex }
        } else {
            ActionModel::ReadLog { log_file: log_name_of(ws[index as int].logical_name) }
        },
        CommandModel::Quit => ActionModel::Exit,
    }
}

/// Decides what to do for `command`. The registry itself is left as it is:
/// it changes when the caller reports a launch or a termination.
pub fn plan(registry: &Registry, command: Command, now: u64) -> (action: Action)
    ensures
        action@ == action_of(registry@, command@, now),
{
    match command {
        Command::Start { file_name, logical_name } => Action::Launch { file_name, logical_name },
        Command::Status => {
            if registry.is_empty() {
                Action::ReportEmpty
            } else {
                Action::ShowTable { rows: registry.list(now) }
            }
        },
        Command::Remove { index } => match registry.handle_at(index) {
            Ok(pid) => Action::Terminate { index, pid },
            Err(reason) => Action::Refuse { reason },
        },
        Command::Logs { index } => match registry.logs_of(index) {
            Ok(log_file) => Action::ReadLog { log_file },
            Err(reason) => Action::Refuse { reason },
        },
        Command::Quit => Action::Exit,
    }
}

} // verus!
