use raft::rpc;
use raft::rpc_server::{
    after_serve, calculate_vote, text_contains, ServeStep, convert_proto_entry, handle_append_entries, handle_request_vote,
    maybe_append_entries,
};
use raft::state;

#[test]
fn success_on_empty() {
    let mut state = state::State::default();

    let entries = vec![rpc::LogEntry {
        term: 1,
        command: Some(rpc::Command::Noop(rpc::Noop {})),
    }];

    let (success, term) = maybe_append_entries(&mut state, 1, "0", &entries, 0, 0, 0);

    assert!(success);
    assert_eq!(term, 1);
    assert_eq!(state.get_log().len(), 1);
    assert_eq!(state.get_log()[0].command, state::Command::Noop);
}

#[test]
fn success_on_entry_same_term() {
    let mut state = state::State::default();
    state.append_log_entry(state::LogEntry {
        term: 1,
        command: state::Command::WriteVar {
            name: "x".to_string(),
            value: 1,
        },
    });

    let entries = vec![rpc::LogEntry {
        term: 1,
        command: Some(rpc::Command::WriteVar(rpc::WriteVar {
            name: "y".to_string(),
            value: 1,
        })),
    }];

    let (success, term) = maybe_append_entries(&mut state, 1, "0", &entries, 1, 1, 0);

    assert!(success);
    assert_eq!(term, 1);
    assert_eq!(state.get_log().len(), 2);
    assert_eq!(
        state.get_log()[0].command,
        state::Command::WriteVar {
            name: "x".to_string(),
            value: 1,
        }
    );
    assert_eq!(
        state.get_log()[1].command,
        state::Command::WriteVar {
            name: "y".to_string(),
            value: 1,
        }
    );
}

#[test]
fn success_on_entry_different_term() {
    let mut state = state::State::default();
    state.append_log_entry(state::LogEntry {
        term: 1,
        command: state::Command::WriteVar {
            name: "x".to_string(),
            value: 1,
        },
    });

    let entries = vec![rpc::LogEntry {
        term: 3,
        command: Some(rpc::Command::WriteVar(rpc::WriteVar {
            name: "y".to_string(),
            value: 1,
        })),
    }];

    let (success, term) = maybe_append_entries(&mut state, 3, "0", &entries, 1, 1, 0);

    assert!(success);
    assert_eq!(term, 3);
    assert_eq!(state.volatile.commit_index, 0);
    assert_eq!(state.get_log().len(), 2);
    assert_eq!(state.get_log()[0].term, 1);
    assert_eq!(state.get_log()[1].term, 3);
    assert_eq!(
        state.get_log()[0].command,
        state::Command::WriteVar {
            name: "x".to_string(),
            value: 1,
        }
    );
    assert_eq!(
        state.get_log()[1].command,
        state::Command::WriteVar {
            name: "y".to_string(),
            value: 1,
        }
    );
}

#[test]
fn success_commit() {
    let mut state = state::State::default();
    state.append_log_entry(state::LogEntry {
        term: 1,
        command: state::Command::WriteVar {
            name: "x".to_string(),
            value: 1,
        },
    });

    let entries = vec![];
    assert_eq!(state.volatile.commit_index, 0);

    let (success, term) = maybe_append_entries(&mut state, 1, "0", &entries, 1, 1, 1);

    assert!(success);
    assert_eq!(term, 1);
    assert_eq!(state.volatile.commit_index, 1);
}

#[test]
fn success_append_commit() {
    let mut state = state::State::default();
    state.append_log_entry(state::LogEntry {
        term: 1,
        command: state::Command::WriteVar {
            name: "x".to_string(),
            value: 1,
        },
    });

    let entries = vec![rpc::LogEntry {
        term: 3,
        command: Some(rpc::Command::WriteVar(rpc::WriteVar {
            name: "y".to_string(),
            value: 1,
        })),
    }];

    assert_eq!(state.volatile.commit_index, 0);

    let (success, term) = maybe_append_entries(&mut state, 3, "0", &entries, 1, 1, 2);

    assert!(success);
    assert_eq!(term, 3);
    assert_eq!(state.volatile.commit_index, 2);
}

#[test]
fn failure_empty() {
    let mut state = state::State::default();

    let entries = vec![rpc::LogEntry {
        term: 3,
        command: Some(rpc::Command::WriteVar(rpc::WriteVar {
            name: "y".to_string(),
            value: 1,
        })),
    }];

    let (success, term) = maybe_append_entries(&mut state, 3, "0", &entries, 1, 1, 0);

    assert!(!success);
    assert_eq!(term, 0);
    assert_eq!(state.get_log().len(), 0);
    assert_eq!(state.volatile.commit_index, 0);
}

#[test]
fn failure_prev_index_not_in_log() {
    let mut state = state::State::default();
    state.set_current_term(1);
    state.append_log_entry(state::LogEntry {
        term: 1,
        command: state::Command::WriteVar {
            name: "x".to_string(),
            value: 1,
        },
    });

    let entries = vec![rpc::LogEntry {
        term: 3,
        command: Some(rpc::Command::WriteVar(rpc::WriteVar {
            name: "y".to_string(),
            value: 1,
        })),
    }];

    let (success, term) = maybe_append_entries(&mut state, 3, "0", &entries, 2, 1, 0);

    assert!(!success);
    assert_eq!(term, 1);
    assert_eq!(state.get_log().len(), 1);
    assert_eq!(state.volatile.commit_index, 0);
}

#[test]
fn failure_prev_term_different() {
    let mut state = state::State::default();
    state.set_current_term(1);
    state.append_log_entry(state::LogEntry {
        term: 1,
        command: state::Command::WriteVar {
            name: "x".to_string(),
            value: 1,
        },
    });

    let entries = vec![rpc::LogEntry {
        term: 3,
        command: Some(rpc::Command::WriteVar(rpc::WriteVar {
            name: "y".to_string(),
            value: 1,
        })),
    }];

    let (success, term) = maybe_append_entries(&mut state, 3, "0", &entries, 1, 2, 0);

    assert!(!success);
    assert_eq!(term, 1);
    assert_eq!(state.get_log().len(), 1);
    assert_eq!(state.volatile.commit_index, 0);
}

#[test]
fn failure_old_term() {
    let mut state = state::State::default();
    state.set_current_term(3);

    let entries = vec![rpc::LogEntry {
        term: 1,
        command: Some(rpc::Command::WriteVar(rpc::WriteVar {
            name: "y".to_string(),
            value: 1,
        })),
    }];

    let (success, term) = maybe_append_entries(&mut state, 1, "0", &entries, 0, 0, 0);

    assert!(!success);
    assert_eq!(term, 3);
    assert_eq!(state.get_log().len(), 0);
    assert_eq!(state.volatile.commit_index, 0);
}

#[test]
fn first_vote() {
    let mut state = state::State::default();
    state.set_current_term(0);

    let (term, vote_granted) = calculate_vote(&mut state, 1, "candidate1");

    assert!(vote_granted);
    assert_eq!(term, 1);
    assert_eq!(state.get_current_term(), 1);
    assert_eq!(state.get_voted_for(), Some("candidate1".to_string()));
}

#[test]
fn deny_old_term() {
    let mut state = state::State::default();
    state.set_current_term(2);

    let (term, vote_granted) = calculate_vote(&mut state, 1, "candidate1");

    assert!(!vote_granted);
    assert_eq!(term, 2);
    assert_eq!(state.get_current_term(), 2);
    assert_eq!(state.get_voted_for(), None);
}

#[test]
fn deny_already_voted() {
    let mut state = state::State::default();
    state.set_current_term(1);
    state.set_voted_for(Some("candidate1".to_string()));

    let (term, vote_granted) = calculate_vote(&mut state, 1, "candidate2");

    assert!(!vote_granted);
    assert_eq!(term, 1);
    assert_eq!(state.get_current_term(), 1);
    assert_eq!(state.get_voted_for(), Some("candidate1".to_string()));
}

#[test]
fn grant_same_candidate() {
    let mut state = state::State::default();
    state.set_current_term(1);
    state.set_voted_for(Some("candidate1".to_string()));

    let (term, vote_granted) = calculate_vote(&mut state, 1, "candidate1");

    assert!(vote_granted);
    assert_eq!(term, 1);
    assert_eq!(state.get_current_term(), 1);
    assert_eq!(state.get_voted_for(), Some("candidate1".to_string()));
}

#[test]
fn grant_new_term() {
    let mut state = state::State::default();
    state.set_current_term(1);
    state.set_voted_for(Some("candidate1".to_string()));

    let (term, vote_granted) = calculate_vote(&mut state, 2, "candidate2");

    assert!(vote_granted);
    assert_eq!(term, 2);
    assert_eq!(state.get_current_term(), 2);
    assert_eq!(state.get_voted_for(), Some("candidate2".to_string()));
}

#[test]
fn one_vote_per_term_for_two_candidates() {
    let mut state = state::State::default();
    assert_eq!(calculate_vote(&mut state, 5, "a"), (5, true));
    assert_eq!(calculate_vote(&mut state, 5, "b"), (5, false));
    assert_eq!(calculate_vote(&mut state, 5, "a"), (5, true));
    assert_eq!(state.get_voted_for(), Some("a".to_string()));
}

#[test]
fn append_records_leader_even_when_refused() {
    let mut state = state::State::default();
    state.set_current_term(4);
    let (success, term) = maybe_append_entries(&mut state, 2, "7", &vec![], 0, 0, 0);
    assert!(!success);
    assert_eq!(term, 4);
    assert_eq!(state.volatile.leader_id, Some("7".to_string()));
}

#[test]
fn append_replaces_conflicting_suffix_and_applies() {
    let mut state = state::State::default();
    for name in ["a", "b", "c"] {
        state.append_log_entry(state::LogEntry {
            term: 1,
            command: state::Command::WriteVar {
                name: name.to_string(),
                value: 1,
            },
        });
    }
    let entries = vec![rpc::LogEntry {
        term: 2,
        command: Some(rpc::Command::DeleteVar(rpc::DeleteVar {
            name: "a".to_string(),
        })),
    }];
    let (success, term) = maybe_append_entries(&mut state, 2, "1", &entries, 1, 1, 2);
    assert!(success);
    assert_eq!(term, 2);
    assert_eq!(state.get_log().len(), 2);
    assert_eq!(state.get_log()[1].term, 2);
    assert_eq!(state.volatile.last_applied, 2);
    assert_eq!(state.state_machine.vars.get("a"), None);
    assert_eq!(state.state_machine.vars.len(), 0);
}

#[test]
fn convert_proto_entry_reads_each_command() {
    let w = convert_proto_entry(&rpc::LogEntry {
        term: 4,
        command: Some(rpc::Command::WriteVar(rpc::WriteVar {
            name: "v".to_string(),
            value: -3,
        })),
    });
    assert_eq!(
        w,
        state::LogEntry {
            term: 4,
            command: state::Command::WriteVar {
                name: "v".to_string(),
                value: -3
            }
        }
    );
    let d = convert_proto_entry(&rpc::LogEntry {
        term: 5,
        command: Some(rpc::Command::DeleteVar(rpc::DeleteVar {
            name: "v".to_string(),
        })),
    });
    assert_eq!(
        d,
        state::LogEntry {
            term: 5,
            command: state::Command::DeleteVar {
                name: "v".to_string()
            }
        }
    );
}

#[test]
fn handle_append_entries_deposes_older_leader() {
    let mut state = state::init_state(3, "0", None);
    state::init_leader_state(&mut state);
    state.set_current_term(1);
    let request = rpc::AppendEntriesRequest {
        term: 2,
        leader_id: "1".to_string(),
        prev_log_index: 0,
        prev_log_term: 0,
        entries: vec![],
        leader_commit: 0,
    };
    let response = handle_append_entries(&mut state, &request, 1234);
    assert_eq!(
        response,
        rpc::AppendEntriesResponse {
            term: 2,
            success: true
        }
    );
    assert_eq!(state.role, state::Role::Follower);
    assert_eq!(state.last_heartbeat_timestamp_ms, 1234);
    assert_eq!(state.get_current_term(), 2);
}

#[test]
fn handle_request_vote_restarts_clock() {
    let mut state = state::State::default();
    let request = rpc::RequestVoteRequest {
        term: 3,
        candidate_id: "2".to_string(),
        last_log_index: 0,
        last_log_term: 0,
    };
    let response = handle_request_vote(&mut state, &request, 99);
    assert_eq!(
        response,
        rpc::RequestVoteResponse {
            term: 3,
            vote_granted: true
        }
    );
    assert_eq!(state.last_heartbeat_timestamp_ms, 99);
}

#[test]
fn server_stops_retries_or_fails() {
    assert_eq!(after_serve(None), ServeStep::Stop);
    assert_eq!(
        after_serve(Some("transport error: address in use")),
        ServeStep::RetryAfterPause
    );
    assert_eq!(after_serve(Some("bad address")), ServeStep::Fail);
}

#[test]
fn text_search() {
    assert!(text_contains("a transport error here", "transport error"));
    assert!(text_contains("abc", ""));
    assert!(text_contains("abc", "abc"));
    assert!(!text_contains("ab", "abc"));
    assert!(!text_contains("transport erro", "transport error"));
}
