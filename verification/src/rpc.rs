//! The messages that raft nodes exchange.
use crate::state::{CommandView, EntryView};
use vstd::prelude::*;

verus! {

#[derive(Clone, Debug, PartialEq)]
pub struct WriteVar {
    pub name: String,
    pub value: i32,
}

#[derive(Clone, Debug, PartialEq)]
pub struct DeleteVar {
    pub name: String,
}

#[derive(Clone, Debug, PartialEq)]
pub struct Noop {}

/// The command carried by a log entry on the wire.
#[derive(Clone, Debug, PartialEq)]
pub enum Command {
    WriteVar(WriteVar),
    DeleteVar(DeleteVar),
    Noop(Noop),
}

/// A log entry on the wire; its command may be missing.
#[derive(Clone, Debug, PartialEq)]
pub struct LogEntry {
    pub term: u32,
    pub command: Option<Command>,
}

#[derive(Clone, Debug, PartialEq)]
pub struct AppendEntriesRequest {
    pub term: u32,
    pub leader_id: String,
    pub prev_log_index: u32,
    pub prev_log_term: u32,
    pub entries: Vec<LogEntry>,
    pub leader_commit: u32,
}

#[derive(Clone, Copy, Debug, PartialEq, Eq, Structural)]
pub struct AppendEntriesResponse {
    pub term: u32,
    pub success: bool,
}

#[derive(Clone, Debug, PartialEq)]
pub struct RequestVoteRequest {
    pub term: u32,
    pub candidate_id: String,
    pub last_log_index: u32,
    pub last_log_term: u32,
}

#[derive(Clone, Copy, Debug, PartialEq, Eq, Structural)]
pub struct RequestVoteResponse {
    pub term: u32,
    pub vote_granted: bool,
}

/// The abstract value of a command on the wire.
pub open spec fn command_message_view(c: Command) -> CommandView {
    match c {
        Command::WriteVar(w) => CommandView::WriteVar { name: w.name@, value: w.value },
        Command::DeleteVar(d) => CommandView::DeleteVar { name: d.name@ },
        Command::Noop(_) => CommandView::Noop,
    }
}

/// The log entry that a message carries, when it carries a command.
pub open spec fn entry_message_view(e: LogEntry) -> Option<EntryView> {
    match e.command {
        Some(c) => Some(EntryView { term: e.term, command: command_message_view(c) }),
        None => None,
    }
}

/// Whether every entry of a message carries a command.
pub open spec fn all_commands_present(es: Seq<LogEntry>) -> bool {
    forall|i: int| 0 <= i < es.len() ==> (#[trigger] es[i]).command.is_some()
}

/// The log entries that messages carry.
pub open spec fn entries_message_view(es: Seq<LogEntry>) -> Seq<EntryView> {
    es.map_values(|e: LogEntry| entry_message_view(e).unwrap())
}

} // verus!
