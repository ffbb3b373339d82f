//! The node state of the browser build: a log, the votes, and the state machine.
use crate::str_map::StrMap;
use vstd::prelude::*;

verus! {

#[derive(Clone, Debug, PartialEq)]
pub enum Command {
    WriteVar { name: String, value: i32 },
    DeleteVar { name: String },
}

#[derive(Clone, Debug, PartialEq)]
pub struct LogEntry {
    pub term: u32,
    pub command: Command,
}

pub struct PersistedState {
    pub current_term: u32,
    pub voted_for: Option<u32>,
    pub log: Vec<LogEntry>,
}

pub struct VolatileState {
    pub commit_index: u32,
    pub last_applied: u32,
}

pub struct VolatileLeaderState {
    pub next_index: Vec<u32>,
    pub match_index: Vec<u32>,
}

pub struct StateMachine {
    pub vars: StrMap<i32>,
}

pub struct State {
    pub persisted: PersistedState,
    pub volatile: VolatileState,
    pub volatile_leader: Option<VolatileLeaderState>,
    pub state_machine: StateMachine,
}

/// A node that has just started: term 0, no vote, an empty log, nothing committed or
/// applied, no leader state and no variables.
pub fn init_state() -> (s: State)
    ensures
        s.persisted.current_term == 0,
        s.persisted.voted_for.is_none(),
        s.persisted.log@.len() == 0,
        s.volatile.commit_index == 0,
        s.volatile.last_applied == 0,
        s.volatile_leader.is_none(),
        s.state_machine.vars@ == Map::<Seq<char>, i32>::empty(),
{
    State {
        persisted: PersistedState { current_term: 0, voted_for: None, log: Vec::new() },
        volatile: VolatileState { commit_index: 0, last_applied: 0 },
        volatile_leader: None,
        state_machine: StateMachine { vars: StrMap::new() },
    }
}

} // verus!
