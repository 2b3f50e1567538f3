//! Commands and their lifecycle.

use vstd::prelude::*;
use crate::strmap::{Duplicate, StringMap};

verus! {

/// Where a command stands in its lifecycle. A command only ever moves
/// forward: `Pending`, then `Delivered`, then `Completed`.
#[derive(Debug, Clone, Copy, PartialEq, Eq, Structural)]
pub enum CommandStatus {
    Pending,
    Delivered,
    Completed,
}

impl CommandStatus {
    /// The position of a status in the lifecycle.
    pub open spec fn rank(self) -> nat {
        match self {
            CommandStatus::Pending => 0,
            CommandStatus::Delivered => 1,
            CommandStatus::Completed => 2,
        }
    }

    /// A command in this status still occupies its client.
    pub open spec fn active(self) -> bool {
        self != CommandStatus::Completed
    }

    /// Whether a command in this status still occupies its client.
    pub fn is_active(&self) -> (r: bool)
        ensures
            r == self.active(),
    {
        match self {
            CommandStatus::Completed => false,
            _ => true,
        }
    }
}

/// A command as the command table records it.
#[derive(Debug)]
pub struct Command {
    pub status: CommandStatus,
    pub parameters: StringMap<String>,
    pub created_at: i64,
}

/// What a `Command` stands for.
#[verifier::ext_equal]
pub struct CommandView {
    pub status: CommandStatus,
    pub parameters: Map<Seq<char>, Seq<char>>,
    pub created_at: int,
}

impl View for Command {
    type V = CommandView;

    open spec fn view(&self) -> CommandView {
        CommandView {
            status: self.status,
            parameters: self.parameters@,
            created_at: self.created_at as int,
        }
    }
}

impl Duplicate for Command {
    fn duplicate(&self) -> (r: Self) {
        Command {
            status: self.status,
            parameters: self.parameters.duplicate(),
            created_at: self.created_at,
        }
    }
}

impl Clone for Command {
    fn clone(&self) -> (r: Self)
        ensures
            r@ == self@,
    {
        self.duplicate()
    }
}

/// A command on its way to a client: what a dispatch is handed.
#[derive(Debug)]
pub struct PendingCommand {
    pub command_id: String,
    pub command: String,
    pub parameters: StringMap<String>,
    pub created_at: i64,
}

/// What a `PendingCommand` stands for.
#[verifier::ext_equal]
pub struct PendingCommandView {
    pub command_id: Seq<char>,
    pub command: Seq<char>,
    pub parameters: Map<Seq<char>, Seq<char>>,
    pub created_at: int,
}

impl View for PendingCommand {
    type V = PendingCommandView;

    open spec fn view(&self) -> PendingCommandView {
        PendingCommandView {
            command_id: self.command_id@,
            command: self.command@,
            parameters: self.parameters@,
            created_at: self.created_at as int,
        }
    }
}

impl Duplicate for PendingCommand {
    fn duplicate(&self) -> (r: Self) {
        PendingCommand {
            command_id: self.command_id.clone(),
            command: self.command.clone(),
            parameters: self.parameters.duplicate(),
            created_at: self.created_at,
        }
    }
}

impl Clone for PendingCommand {
    fn clone(&self) -> (r: Self)
        ensures
            r@ == self@,
    {
        self.duplicate()
    }
}

/// The command that a client is working on, as read back from its metrics.
#[derive(Debug)]
pub struct CurrentCommand {
    pub command_id: String,
    pub command: String,
    pub parameters: StringMap<String>,
    pub started_at: i64,
}

/// What a `CurrentCommand` stands for.
#[verifier::ext_equal]
pub struct CurrentCommandView {
    pub command_id: Seq<char>,
    pub command: Seq<char>,
    pub parameters: Map<Seq<char>, Seq<char>>,
    pub started_at: int,
}

impl View for CurrentCommand {
    type V = CurrentCommandView;

    open spec fn view(&self) -> CurrentCommandView {
        CurrentCommandView {
            command_id: self.command_id@,
            command: self.command@,
            parameters: self.parameters@,
            started_at: self.started_at as int,
        }
    }
}

impl Duplicate for CurrentCommand {
    fn duplicate(&self) -> (r: Self) {
        CurrentCommand {
            command_id: self.command_id.clone(),
            command: self.command.clone(),
            parameters: self.parameters.duplicate(),
            started_at: self.started_at,
        }
    }
}

impl Clone for CurrentCommand {
    fn clone(&self) -> (r: Self)
        ensures
            r@ == self@,
    {
        self.duplicate()
    }
}

/// The command that a client is working on, as the administrative listing
/// shows it: without its parameters.
#[derive(Debug)]
pub struct ListedCommand {
    pub command_id: String,
    pub command: String,
    pub started_at: i64,
}

/// What a `ListedCommand` stands for.
#[verifier::ext_equal]
pub struct ListedCommandView {
    pub command_id: Seq<char>,
    pub command: Seq<char>,
    pub started_at: int,
}

impl View for ListedCommand {
    type V = ListedCommandView;

    open spec fn view(&self) -> ListedCommandView {
        ListedCommandView {
            command_id: self.command_id@,
            command: self.command@,
            started_at: self.started_at as int,
        }
    }
}

impl Duplicate for ListedCommand {
    fn duplicate(&self) -> (r: Self) {
        ListedCommand {
            command_id: self.command_id.clone(),
            command: self.command.clone(),
            started_at: self.started_at,
        }
    }
}

impl Clone for ListedCommand {
    fn clone(&self) -> (r: Self)
        ensures
            r@ == self@,
    {
        self.duplicate()
    }
}

} // verus!
