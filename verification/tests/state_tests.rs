use raft::lite;
use raft::state::{
    decode_term, encode_term, init_leader_state, init_state, reset_leader_state, Command, LogEntry,
    Role, State,
};

#[test]
fn test_init_state_empty() {
    let state = init_state(0, "0", None);
    assert_eq!(state.get_current_term(), 0);
    assert_eq!(state.volatile.commit_index, 0);
    assert_eq!(state.volatile.last_applied, 0);
    assert_eq!(state.state_machine.vars.len(), 0);
    assert_eq!(state.node_ids.len(), 0);
    assert_eq!(state.role, Role::Follower);
    assert_eq!(state.node_id, "0");
}

#[test]
fn test_init_node_ids() {
    let state = init_state(3, "0", None);
    assert_eq!(state.node_ids.len(), 3);
    assert_eq!(state.node_ids[0], "0");
    assert_eq!(state.node_ids[1], "1");
    assert_eq!(state.node_ids[2], "2");
    assert_eq!(state.node_id, "0");
}

#[test]
fn test_apply_committed_write() {
    let mut state = init_state(1, "0", None);
    state.append_log_entry(LogEntry {
        term: 1,
        command: Command::WriteVar {
            name: "a".to_string(),
            value: 1,
        },
    });
    state.volatile.commit_index = 1;

    assert_eq!(state.volatile.last_applied, 0);

    state.apply_committed();

    assert_eq!(state.volatile.last_applied, 1);
    assert_eq!(state.state_machine.vars.get("a"), Some(&1));
}

#[test]
fn test_override_committed_write() {
    let mut state = init_state(1, "0", None);
    state.append_log_entry(LogEntry {
        term: 1,
        command: Command::WriteVar {
            name: "a".to_string(),
            value: 1,
        },
    });
    state.append_log_entry(LogEntry {
        term: 1,
        command: Command::WriteVar {
            name: "a".to_string(),
            value: 2,
        },
    });

    state.volatile.commit_index = 1;
    state.apply_committed();
    assert_eq!(state.volatile.last_applied, 1);
    assert_eq!(state.state_machine.vars.get("a"), Some(&1));

    state.volatile.commit_index = 2;
    state.apply_committed();
    assert_eq!(state.volatile.last_applied, 2);
    assert_eq!(state.state_machine.vars.get("a"), Some(&2));
}

#[test]
fn state_test_init_state_empty() {
    assert_eq!(lite::init_state().persisted.current_term, 0);
    assert_eq!(lite::init_state().volatile.commit_index, 0);
    assert_eq!(lite::init_state().volatile.last_applied, 0);
    assert_eq!(lite::init_state().state_machine.vars.len(), 0);
}

fn write(name: &str, value: i32) -> LogEntry {
    LogEntry {
        term: 1,
        command: Command::WriteVar {
            name: name.to_string(),
            value,
        },
    }
}

#[test]
fn apply_committed_delete_and_noop() {
    let mut state = State::default();
    state.append_log_entry(write("a", 1));
    state.append_log_entry(write("b", 2));
    state.append_log_entry(LogEntry {
        term: 1,
        command: Command::DeleteVar {
            name: "a".to_string(),
        },
    });
    state.append_log_entry(LogEntry {
        term: 2,
        command: Command::Noop,
    });
    state.volatile.commit_index = 4;
    state.apply_committed();
    assert_eq!(state.volatile.last_applied, 4);
    assert_eq!(state.state_machine.vars.get("a"), None);
    assert_eq!(state.state_machine.vars.get("b"), Some(&2));
    assert_eq!(state.state_machine.vars.len(), 1);
}

#[test]
fn apply_committed_in_steps_matches_one_step() {
    let mut stepwise = State::default();
    let mut at_once = State::default();
    for (name, value) in [("x", 1), ("y", 2), ("x", 3)] {
        stepwise.append_log_entry(write(name, value));
        at_once.append_log_entry(write(name, value));
    }
    stepwise.volatile.commit_index = 1;
    stepwise.apply_committed();
    stepwise.volatile.commit_index = 3;
    stepwise.apply_committed();
    at_once.volatile.commit_index = 3;
    at_once.apply_committed();
    assert_eq!(stepwise.state_machine.vars.get("x"), Some(&3));
    assert_eq!(at_once.state_machine.vars.get("x"), Some(&3));
    assert_eq!(stepwise.state_machine.vars.get("y"), at_once.state_machine.vars.get("y"));
    assert_eq!(stepwise.volatile.last_applied, at_once.volatile.last_applied);
}

#[test]
fn apply_committed_twice_changes_nothing() {
    let mut state = State::default();
    state.append_log_entry(write("k", 7));
    state.volatile.commit_index = 1;
    state.apply_committed();
    state.apply_committed();
    assert_eq!(state.volatile.last_applied, 1);
    assert_eq!(state.state_machine.vars.get("k"), Some(&7));
}

#[test]
fn apply_committed_behind_last_applied_does_nothing() {
    let mut state = State::default();
    state.append_log_entry(write("k", 7));
    state.volatile.last_applied = 1;
    state.volatile.commit_index = 0;
    state.apply_committed();
    assert_eq!(state.volatile.last_applied, 1);
    assert_eq!(state.state_machine.vars.len(), 0);
}

#[test]
fn setters_give_back_what_they_set() {
    let mut state = State::default();
    assert_eq!(state.set_current_term(9), 9);
    assert_eq!(state.get_current_term(), 9);
    assert_eq!(state.set_voted_for(Some("3".to_string())), Some("3".to_string()));
    assert_eq!(state.get_voted_for(), Some("3".to_string()));
    assert_eq!(state.set_voted_for(None), None);
    assert_eq!(state.get_voted_for(), None);
}

#[test]
fn truncate_log_keeps_prefix() {
    let mut state = State::default();
    state.append_log_entry(write("a", 1));
    state.append_log_entry(write("b", 2));
    state.append_log_entry(write("c", 3));
    state.truncate_log(1);
    assert_eq!(state.get_log().len(), 1);
    assert_eq!(state.get_log()[0], write("a", 1));
    state.truncate_log(0);
    assert_eq!(state.get_log().len(), 0);
}

#[test]
fn term_codec_round_trip() {
    assert_eq!(encode_term(0x0102_0304), vec![4, 3, 2, 1]);
    assert_eq!(encode_term(7), 7u32.to_le_bytes().to_vec());
    for t in [0u32, 1, 255, 256, 65_535, 1_000_000, u32::MAX] {
        assert_eq!(decode_term(&encode_term(t)), Some(t));
    }
    assert_eq!(decode_term(&[1, 2, 3]), None);
    assert_eq!(decode_term(&[]), None);
    assert_eq!(decode_term(&[0, 0, 0, 0, 0]), None);
}

#[test]
fn restore_persisted_state_takes_what_was_stored() {
    let mut state = State::default();
    state.restore_persisted_state(
        Some(encode_term(12)),
        Some("2".to_string()),
        Some(vec![write("a", 1)]),
    );
    assert_eq!(state.get_current_term(), 12);
    assert_eq!(state.get_voted_for(), Some("2".to_string()));
    assert_eq!(state.get_log().len(), 1);
}

#[test]
fn restore_persisted_state_ignores_malformed_parts() {
    let mut state = State::default();
    state.set_current_term(4);
    state.restore_persisted_state(Some(vec![1, 2]), Some(String::new()), None);
    assert_eq!(state.get_current_term(), 4);
    assert_eq!(state.get_voted_for(), None);
    assert_eq!(state.get_log().len(), 0);
}

#[test]
fn init_leader_state_expects_entry_after_log() {
    let mut state = init_state(3, "0", None);
    state.append_log_entry(write("a", 1));
    init_leader_state(&mut state);
    assert_eq!(state.role, Role::Leader);
    let leader = state.volatile_leader.as_ref().unwrap();
    for id in ["0", "1", "2"] {
        assert_eq!(leader.next_index.get(id), Some(&2));
        assert_eq!(leader.match_index.get(id), Some(&0));
    }
    assert_eq!(leader.next_index.get("3"), None);
    assert_eq!(leader.next_index.len(), 3);
}

#[test]
fn reset_leader_state_makes_follower() {
    let mut state = init_state(2, "0", None);
    init_leader_state(&mut state);
    reset_leader_state(&mut state);
    assert_eq!(state.role, Role::Follower);
    assert!(state.volatile_leader.is_none());
}

#[test]
fn init_state_records_storage_path_and_clock() {
    let state = init_state(12, "5", Some("/tmp/node".to_string()));
    assert_eq!(state.storage_path, Some("/tmp/node".to_string()));
    assert_eq!(state.node_ids[10], "10");
    assert_eq!(state.node_ids[11], "11");
    assert!(state.last_heartbeat_timestamp_ms > 1_600_000_000_000);
    assert!(state.get_log().is_empty());
}
