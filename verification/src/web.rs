//! What the node answers to its clients.
use crate::state::{clone_opt_string, opt_string_view, Command, CommandView, EntryView, LogEntry, Role, State, StateView};
use vstd::prelude::*;

verus! {

/// The answer to a read of a variable.
#[derive(Debug, PartialEq)]
pub enum VariableLookup {
    /// The node is not the leader; the leader it believes in, if any.
    NotLeader(Option<String>),
    /// The variable's value.
    Found(i32),
    /// The variable is not set.
    NotSet,
}

/// Reads a variable; only the leader answers with a value.
pub fn lookup_variable(state: &State, key: &str) -> (r: VariableLookup)
    ensures
        match r {
            VariableLookup::NotLeader(l) => state@.role != Role::Leader && opt_string_view(l)
                == state@.leader_id,
            VariableLookup::Found(v) => state@.role == Role::Leader && state@.vars.contains_key(key@)
                && state@.vars[key@] == v,
            VariableLookup::NotSet => state@.role == Role::Leader && !state@.vars.contains_key(key@),
        },
{
    if state.role != Role::Leader {
        return VariableLookup::NotLeader(clone_opt_string(&state.volatile.leader_id));
    }
    match state.state_machine.vars.get(key) {
        Some(v) => VariableLookup::Found(*v),
        None => VariableLookup::NotSet,
    }
}

/// Proposes writing `value` to the variable `key`: a leader appends the write to its log in
/// its current term; another node refuses and names the leader it believes in, if any.
pub fn propose_write(state: &mut State, key: String, value: i32) -> (r: Result<(), Option<String>>)
    ensures
        match r {
            Ok(()) => old(state)@.role == Role::Leader && final(state)@ == (StateView {
                log: old(state)@.log.push(
                    EntryView {
                        term: old(state)@.current_term,
                        command: CommandView::WriteVar { name: key@, value },
                    },
                ),
                ..old(state)@
            }),
            Err(l) => old(state)@.role != Role::Leader && final(state)@ == old(state)@
                && opt_string_view(l) == old(state)@.leader_id,
        },
{
    if state.role != Role::Leader {
        return Err(clone_opt_string(&state.volatile.leader_id));
    }
    let entry = LogEntry { term: state.get_current_term(), command: Command::WriteVar { name: key, value } };
    state.append_log_entry(entry);
    Ok(())
}

} // verus!
