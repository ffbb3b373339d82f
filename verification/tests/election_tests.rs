use rand::rngs::StdRng;
use rand::SeedableRng;
use raft::election::{
    begin_election, conclude_election, confirm_leadership, election_due, should_start_election,
    tally_votes, VoteTally, ELECTION_TIMEOUT_MS,
};
use raft::rpc;
use raft::state::{init_state, Command, LogEntry, Role};

#[test]
fn election_waits_for_timeout_and_jitter() {
    let mut state = init_state(3, "0", None);
    state.last_heartbeat_timestamp_ms = 1000;
    assert!(!election_due(&state, 1199, 0));
    assert!(election_due(&state, 1200, 0));
    assert!(!election_due(&state, 1249, 50));
    assert!(election_due(&state, 1250, 50));
    state.role = Role::Leader;
    assert!(!election_due(&state, 100_000, 0));
}

#[test]
fn should_start_election_bounds() {
    let mut rng = StdRng::seed_from_u64(42);
    let mut state = init_state(3, "0", None);
    state.last_heartbeat_timestamp_ms = 0;
    for _ in 0..20 {
        assert!(!should_start_election(&state, 199, &mut rng));
        assert!(should_start_election(
            &state,
            2 * ELECTION_TIMEOUT_MS as u128,
            &mut rng
        ));
    }
    state.role = Role::Candidate;
    assert!(!should_start_election(&state, 1_000_000, &mut rng));
}

#[test]
fn begin_election_votes_for_self() {
    let mut state = init_state(3, "1", None);
    state.set_current_term(4);
    state.append_log_entry(LogEntry {
        term: 3,
        command: Command::Noop,
    });
    let ballot = begin_election(&mut state);
    assert_eq!(state.get_current_term(), 5);
    assert_eq!(state.get_voted_for(), Some("1".to_string()));
    assert_eq!(state.role, Role::Candidate);
    assert_eq!(ballot.request.term, 5);
    assert_eq!(ballot.request.candidate_id, "1");
    assert_eq!(ballot.request.last_log_index, 1);
    assert_eq!(ballot.request.last_log_term, 3);
    assert_eq!(ballot.voters, vec!["0".to_string(), "2".to_string()]);
}

#[test]
fn begin_election_on_empty_log() {
    let mut state = init_state(1, "0", None);
    let ballot = begin_election(&mut state);
    assert_eq!(ballot.request.last_log_index, 0);
    assert_eq!(ballot.request.last_log_term, 0);
    assert!(ballot.voters.is_empty());
}

#[test]
fn tally_counts_self_grants_and_refusals() {
    let answers = vec![
        Some(rpc::RequestVoteResponse {
            term: 5,
            vote_granted: true,
        }),
        None,
        Some(rpc::RequestVoteResponse {
            term: 7,
            vote_granted: false,
        }),
        Some(rpc::RequestVoteResponse {
            term: 6,
            vote_granted: false,
        }),
    ];
    assert_eq!(
        tally_votes(&answers),
        VoteTally {
            votes: 2,
            max_term: 7
        }
    );
    assert_eq!(
        tally_votes(&vec![]),
        VoteTally {
            votes: 1,
            max_term: 0
        }
    );
}

#[test]
fn winner_becomes_leader_with_noop() {
    let mut state = init_state(3, "0", None);
    begin_election(&mut state);
    let won = conclude_election(
        &mut state,
        &VoteTally {
            votes: 2,
            max_term: 0,
        },
    );
    assert!(won);
    assert_eq!(state.role, Role::Leader);
    assert_eq!(state.get_log().len(), 1);
    assert_eq!(
        state.get_log()[0],
        LogEntry {
            term: 1,
            command: Command::Noop
        }
    );
    let leader = state.volatile_leader.as_ref().unwrap();
    assert_eq!(leader.next_index.get("2"), Some(&1));
    assert_eq!(leader.match_index.get("2"), Some(&0));
    assert!(confirm_leadership(&mut state, 2, 2));
    assert_eq!(state.role, Role::Leader);
    assert!(!confirm_leadership(&mut state, 1, 2));
    assert_eq!(state.role, Role::Follower);
    assert!(state.volatile_leader.is_none());
}

#[test]
fn loser_takes_newer_term_and_follows() {
    let mut state = init_state(5, "0", None);
    begin_election(&mut state);
    let won = conclude_election(
        &mut state,
        &VoteTally {
            votes: 2,
            max_term: 9,
        },
    );
    assert!(!won);
    assert_eq!(state.role, Role::Follower);
    assert_eq!(state.get_current_term(), 9);
    assert_eq!(state.get_voted_for(), None);

    let mut state = init_state(5, "0", None);
    state.set_current_term(10);
    begin_election(&mut state);
    conclude_election(
        &mut state,
        &VoteTally {
            votes: 1,
            max_term: 3,
        },
    );
    assert_eq!(state.role, Role::Follower);
    assert_eq!(state.get_current_term(), 11);
    assert_eq!(state.get_voted_for(), Some("0".to_string()));
}

#[test]
fn half_of_even_ring_does_not_elect() {
    let mut state = init_state(4, "0", None);
    begin_election(&mut state);
    let won = conclude_election(
        &mut state,
        &VoteTally {
            votes: 2,
            max_term: 0,
        },
    );
    assert!(!won);
    assert_eq!(state.role, Role::Follower);

    let mut state = init_state(4, "0", None);
    begin_election(&mut state);
    assert!(conclude_election(
        &mut state,
        &VoteTally {
            votes: 3,
            max_term: 0,
        },
    ));
    assert!(!confirm_leadership(&mut state, 2, 3));
    assert_eq!(state.role, Role::Follower);
}
