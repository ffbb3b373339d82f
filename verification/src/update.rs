//! What a leader does to keep its followers up to date.
use crate::rpc;
use crate::rpc::{all_commands_present, entries_message_view, entry_message_view};
use crate::state::{
    applied, leader_stopped, log_view, strings_view, Command, LeaderView, LogEntry, Role, State,
    StateView,
};
use vstd::prelude::*;

verus! {

/// Time between heartbeats, one order of magnitude below the election timeout, so that no
/// election starts while the leader is alive.
pub const HEARTBEAT_TIMEOUT_MS: u128 = 20;

/// How long a round of updates keeps trying a follower that does not answer.
#[derive(Clone, Copy, Debug, PartialEq, Eq, Structural)]
pub enum WaitFor {
    /// Until a majority of the nodes has accepted the update.
    Majority,
    /// At most this many attempts per follower.
    Retries(u32),
}

/// What to do after an attempt to update a follower failed.
#[derive(Clone, Copy, Debug, PartialEq, Eq, Structural)]
pub enum RetryStep {
    /// Stop trying this follower.
    GiveUp,
    /// Wait a little, then try again.
    RetryAfterPause,
    /// Try again at once.
    RetryNow,
}

/// The smallest number of nodes that is more than half of `n` (saturating at the largest
/// `u32`).
pub open spec fn majority_spec(n: nat) -> u32 {
    if n / 2 + 1 > u32::MAX {
        u32::MAX
    } else {
        (n / 2 + 1) as u32
    }
}

/// A majority of a ring is more than half of it, so two groups of nodes that each reach
/// a majority of the same ring (`a` and `b` nodes) always share a node.
pub proof fn lemma_majorities_overlap(n: nat, a: nat, b: nat)
    requires
        n / 2 + 1 <= u32::MAX,
        a >= majority_spec(n),
        b >= majority_spec(n),
    ensures
        2 * majority_spec(n) > n,
        a + b > n,
{
}

/// The number of nodes, self included, whose agreement a decision needs in a ring of `n`.
pub fn majority_of(n: usize) -> (m: u32)
    ensures
        m == majority_spec(n as nat),
{
    let more_than_half = n / 2 + 1;
    if more_than_half > 4294967295usize {
        u32::MAX
    } else {
        more_than_half as u32
    }
}

/// The ids of the ring, in order, without the node's own id.
pub open spec fn peers(s: StateView) -> Seq<Seq<char>> {
    s.node_ids.filter(|id: Seq<char>| id != s.node_id)
}

/// The ids of the other nodes of the ring, in order.
pub fn peer_ids(state: &State) -> (ids: Vec<String>)
    ensures
        strings_view(ids@) == peers(state@),
{
    let ghost f = |id: Seq<char>| id != state@.node_id;
    let mut ids: Vec<String> = Vec::new();
    let mut i: usize = 0;
    while i < state.node_ids.len()
        invariant
            i <= state.node_ids@.len(),
            f == (|id: Seq<char>| id != state@.node_id),
            strings_view(ids@) == state@.node_ids.take(i as int).filter(f),
        decreases state.node_ids@.len() - i,
    {
        let id = &state.node_ids[i];
        let ghost before = ids@;
        if *id != state.node_id {
            ids.push(id.clone());
        }
        proof {
            let s = state@.node_ids;
            assert(s.take(i as int).push(id@) =~= s.take(i + 1));
            s.take(i as int).lemma_filter_push(id@, f);
            if f(id@) {
                assert(strings_view(ids@) =~= strings_view(before).push(id@));
            } else {
                assert(strings_view(ids@) =~= strings_view(before));
            }
        }
        i = i + 1;
    }
    proof {
        assert(state@.node_ids.take(i as int) =~= state@.node_ids);
    }
    ids
}

/// Turns a log entry into the message that carries it.
pub fn convert_log_entry(entry: &LogEntry) -> (m: rpc::LogEntry)
    ensures
        entry_message_view(m) == Some(entry@),
{
    let command = match &entry.command {
        Command::WriteVar { name, value } => rpc::Command::WriteVar(
            rpc::WriteVar { name: name.clone(), value: *value },
        ),
        Command::DeleteVar { name } => rpc::Command::DeleteVar(rpc::DeleteVar { name: name.clone() }),
        Command::Noop => rpc::Command::Noop(rpc::Noop {}),
    };
    rpc::LogEntry { term: entry.term, command: Some(command) }
}

/// The update that the leader sends to a follower: its whole log, to be placed at the
/// start of the follower's log, with the leader's term and commit index.
pub fn build_append_entries_request(state: &State) -> (r: rpc::AppendEntriesRequest)
    ensures
        r.term == state@.current_term,
        r.leader_id@ == state@.node_id,
        r.prev_log_index == 0,
        r.prev_log_term == 0,
        all_commands_present(r.entries@),
        entries_message_view(r.entries@) == state@.log,
        r.leader_commit == state@.commit_index,
{
    let mut entries: Vec<rpc::LogEntry> = Vec::new();
    let log = state.get_log();
    let mut i: usize = 0;
    while i < log.len()
        invariant
            i <= log@.len(),
            log_view(log@) == state@.log,
            all_commands_present(entries@),
            entries_message_view(entries@) == state@.log.take(i as int),
        decreases log@.len() - i,
    {
        let m = convert_log_entry(&log[i]);
        let ghost before = entries@;
        entries.push(m);
        i = i + 1;
        proof {
            assert(log_view(log@)[i - 1] == log@[i - 1]@);
            assert(entries_message_view(before).len() == before.len());
            assert(before.len() == i - 1);
            assert(entries@ == before.push(m));
            assert forall|j: int| 0 <= j < i implies #[trigger] entries_message_view(entries@)[j]
                == state@.log[j] by {
                if j < i - 1 {
                    assert(entries@[j] == before[j]);
                    assert(entries_message_view(before)[j] == state@.log.take(i - 1)[j]);
                }
            }
            assert(entries_message_view(entries@) =~= state@.log.take(i as int));
        }
    }
    proof {
        assert(state@.log.take(i as int) =~= state@.log);
    }
    let prev_log_index: u32 = 0;
    let prev_log_term: u32 = if prev_log_index == 0 {
        0
    } else {
        log[(prev_log_index - 1) as usize].term
    };
    rpc::AppendEntriesRequest {
        term: state.get_current_term(),
        leader_id: state.node_id.clone(),
        prev_log_index,
        prev_log_term,
        entries,
        leader_commit: state.volatile.commit_index,
    }
}

/// `n - 1`, or 0 when `n` is 0.
pub open spec fn saturating_pred(n: u32) -> u32 {
    if n == 0 {
        0
    } else {
        (n - 1) as u32
    }
}

/// What the leader learns from a follower's answer to an update that reached up to index
/// `reached` of its log.
pub open spec fn leader_update_outcome(
    s: StateView,
    dst_id: Seq<char>,
    reached: u32,
    response: rpc::AppendEntriesResponse,
) -> StateView {
    if !response.success {
        if response.term > s.current_term {
            StateView { current_term: response.term, ..leader_stopped(s) }
        } else {
            let l = s.leader.unwrap();
            StateView {
                leader: Some(
                    LeaderView {
                        next_index: l.next_index.insert(dst_id, saturating_pred(l.next_index[dst_id])),
                        ..l
                    },
                ),
                ..s
            }
        }
    } else {
        match s.leader {
            Some(l) => StateView {
                leader: Some(
                    LeaderView {
                        match_index: l.match_index.insert(dst_id, reached),
                        next_index: l.next_index.insert(dst_id, (reached + 1) as u32),
                    },
                ),
                ..s
            },
            None => s,
        }
    }
}

/// The last index of the leader's log that an update covers.
pub open spec fn update_reach(request: rpc::AppendEntriesRequest) -> u32 {
    (request.prev_log_index + (request.entries@.len() as u32)) as u32
}

/// What a call of `update_leader_state` needs: a refusal in a term that is not newer
/// comes to a leader that tracks the follower, and an acceptance does not reach past the
/// largest index.
pub open spec fn leader_update_allowed(
    s: StateView,
    dst_id: Seq<char>,
    request: rpc::AppendEntriesRequest,
    response: rpc::AppendEntriesResponse,
) -> bool {
    &&& (!response.success && response.term <= s.current_term) ==> (s.leader.is_some()
        && s.leader.unwrap().next_index.contains_key(dst_id))
    &&& (response.success && s.leader.is_some()) ==> request.prev_log_index + (
    request.entries@.len() as u32) + 1 <= u32::MAX
}

/// Checks whether `update_leader_state` can take a follower's answer.
pub fn check_leader_update(
    dst_id: &str,
    state: &State,
    request: &rpc::AppendEntriesRequest,
    response: &rpc::AppendEntriesResponse,
) -> (ok: bool)
    ensures
        ok == leader_update_allowed(state@, dst_id@, *request, *response),
{
    if !response.success && response.term <= state.get_current_term() {
        match &state.volatile_leader {
            Some(leader) => {
                if !leader.next_index.contains_key(dst_id) {
                    return false;
                }
            },
            None => {
                return false;
            },
        }
    }
    if response.success && state.volatile_leader.is_some() {
        let sent = request.entries.len() as u32;
        if request.prev_log_index as u64 + sent as u64 + 1 > 4294967295u64 {
            return false;
        }
    }
    true
}

/// Updates the leader's state with a follower's answer to an update: a refusal in a newer
/// term deposes the leader, which takes that term; another refusal moves the follower's
/// next index back by one; an acceptance records that the follower holds the log up to
/// the last entry sent.
pub fn update_leader_state(
    dst_id: &str,
    state: &mut State,
    request: &rpc::AppendEntriesRequest,
    response: &rpc::AppendEntriesResponse,
)
    requires
        leader_update_allowed(old(state)@, dst_id@, *request, *response),
    ensures
        final(state)@ == leader_update_outcome(old(state)@, dst_id@, update_reach(*request), *response),
{
    if !response.success {
        if response.term > state.get_current_term() {
            crate::state::reset_leader_state(state);
            state.set_current_term(response.term);
            state.volatile_leader = None;
        } else {
            let leader = state.volatile_leader.as_mut().unwrap();
            let next_index = *leader.next_index.get(dst_id).unwrap();
            let lowered = if next_index > 0 {
                next_index - 1
            } else {
                0
            };
            leader.next_index.insert(dst_id.to_owned(), lowered);
        }
    }
    if response.success {
        match &mut state.volatile_leader {
            Some(leader) => {
                let reached = request.prev_log_index + request.entries.len() as u32;
                leader.match_index.insert(dst_id.to_owned(), reached);
                leader.next_index.insert(dst_id.to_owned(), reached + 1);
            },
            None => {},
        }
    }
}

/// Whether a leader should send a heartbeat at `now_ms`: the node is leader and the last
/// one went out at least `HEARTBEAT_TIMEOUT_MS` ago.
pub fn heartbeat_due(state: &State, now_ms: u128) -> (b: bool)
    requires
        state@.role == Role::Leader ==> state@.last_heartbeat_ms + HEARTBEAT_TIMEOUT_MS <= u128::MAX,
    ensures
        b == (state@.role == Role::Leader && state@.last_heartbeat_ms + HEARTBEAT_TIMEOUT_MS <= now_ms),
{
    if state.role != Role::Leader {
        return false;
    }
    if state.last_heartbeat_timestamp_ms + HEARTBEAT_TIMEOUT_MS > now_ms {
        return false;
    }
    true
}

/// Decides what to do after an attempt to update a follower failed, and counts the attempt:
/// when waiting for a majority, stop once `successes` reaches `majority` and otherwise try
/// again after a pause; with a number of retries, stop once that many attempts were made.
pub fn record_failed_attempt(wait_for: WaitFor, attempt: &mut u32, successes: u32, majority: u32) -> (step:
    RetryStep)
    requires
        *old(attempt) < u32::MAX,
    ensures
        *final(attempt) == *old(attempt) + 1,
        step == match wait_for {
            WaitFor::Majority => if successes >= majority {
                RetryStep::GiveUp
            } else {
                RetryStep::RetryAfterPause
            },
            WaitFor::Retries(n) => if *final(attempt) >= n {
                RetryStep::GiveUp
            } else {
                RetryStep::RetryNow
            },
        },
{
    *attempt = *attempt + 1;
    match wait_for {
        WaitFor::Majority => {
            if successes >= majority {
                RetryStep::GiveUp
            } else {
                RetryStep::RetryAfterPause
            }
        },
        WaitFor::Retries(n) => {
            if *attempt >= n {
                RetryStep::GiveUp
            } else {
                RetryStep::RetryNow
            }
        },
    }
}

/// How many nodes took a round of updates: the leader itself and each follower whose
/// answer is `true`.
pub open spec fn accepted_count(answers: Seq<bool>) -> nat
    decreases answers.len(),
{
    if answers.len() == 0 {
        1
    } else {
        accepted_count(answers.drop_last()) + if answers.last() {
            1nat
        } else {
            0nat
        }
    }
}

/// Counts the nodes that took a round of updates, the leader included, from whether each
/// follower took it.
pub fn count_accepted(answers: &Vec<bool>) -> (n: u32)
    requires
        answers@.len() < u32::MAX,
    ensures
        n == accepted_count(answers@),
{
    let mut n: u32 = 1;
    let mut i: usize = 0;
    while i < answers.len()
        invariant
            i <= answers@.len() < u32::MAX,
            n == accepted_count(answers@.take(i as int)),
            n <= i + 1,
        decreases answers@.len() - i,
    {
        proof {
            assert(answers@.take(i + 1).drop_last() =~= answers@.take(i as int));
        }
        if answers[i] {
            n = n + 1;
        }
        i = i + 1;
    }
    proof {
        assert(answers@.take(i as int) =~= answers@);
    }
    n
}

/// The followers that a round of updates goes to, and how many nodes, the leader
/// included, must accept it.
pub struct UpdateRound {
    pub peers: Vec<String>,
    pub majority: u32,
}

/// Prepares a round of updates of a leader.
pub fn plan_update_round(state: &State) -> (r: UpdateRound)
    requires
        state@.role == Role::Leader,
    ensures
        strings_view(r.peers@) == peers(state@),
        r.majority == majority_spec(state@.node_ids.len()),
{
    let peers = peer_ids(state);
    let majority = majority_of(state.node_ids.len());
    UpdateRound { peers, majority }
}

/// The state after a round of updates that `successful` nodes, the leader included,
/// accepted: with at least `majority` of them the whole log is committed and applied.
/// Either way the heartbeat clock restarts at `now_ms`.
pub open spec fn round_finished(s: StateView, successful: u32, majority: u32, now_ms: u128) -> StateView {
    let s1 = if successful >= majority {
        applied(StateView { commit_index: s.log.len() as u32, ..s })
    } else {
        s
    };
    StateView { last_heartbeat_ms: now_ms, ..s1 }
}

/// Ends a round of updates; gives back whether the log was committed.
pub fn finish_update_round(state: &mut State, successful: u32, majority: u32, now_ms: u128) -> (committed:
    bool)
    ensures
        committed == (successful >= majority),
        final(state)@ == round_finished(old(state)@, successful, majority, now_ms),
{
    let committed = successful >= majority;
    if committed {
        let len = state.get_log().len();
        let new_commit_index = len as u32;
        assert(new_commit_index <= len) by (bit_vector)
            requires
                new_commit_index == len as u32,
        ;
        state.volatile.commit_index = new_commit_index;
        state.apply_committed();
    }
    state.last_heartbeat_timestamp_ms = now_ms;
    committed
}

/// A leader's term only changes through a refusal in a newer term, and then only upward.
pub proof fn lemma_leader_update_term_monotone(
    s: StateView,
    dst_id: Seq<char>,
    reached: u32,
    response: rpc::AppendEntriesResponse,
)
    ensures
        s.current_term <= leader_update_outcome(s, dst_id, reached, response).current_term,
        leader_update_outcome(s, dst_id, reached, response).current_term != s.current_term
            ==> !response.success && response.term > s.current_term,
{
}

/// A refusal in a newer term always deposes the leader.
pub proof fn lemma_newer_term_deposes(
    s: StateView,
    dst_id: Seq<char>,
    reached: u32,
    response: rpc::AppendEntriesResponse,
)
    requires
        !response.success,
        response.term > s.current_term,
    ensures
        leader_update_outcome(s, dst_id, reached, response).role == Role::Follower,
        leader_update_outcome(s, dst_id, reached, response).leader.is_none(),
        leader_update_outcome(s, dst_id, reached, response).current_term == response.term,
{
}

/// After an accepted update, the leader expects the entry right after the last one that
/// the follower is known to hold.
pub proof fn lemma_accepted_update_indexes(
    s: StateView,
    dst_id: Seq<char>,
    reached: u32,
    response: rpc::AppendEntriesResponse,
)
    requires
        response.success,
        s.leader.is_some(),
        reached < u32::MAX,
    ensures
        ({
            let l = leader_update_outcome(s, dst_id, reached, response).leader.unwrap();
            &&& l.match_index[dst_id] == reached
            &&& l.next_index[dst_id] == reached + 1
        }),
{
}

/// Nothing is committed without the agreement of a majority: a round that commits was
/// accepted by more than half of the ring, and a round that fewer nodes accepted leaves
/// the commit index and the state machine as they were.
pub proof fn lemma_commit_is_by_majority(s: StateView, successful: u32, now_ms: u128)
    requires
        s.node_ids.len() / 2 + 1 <= u32::MAX,
        round_finished(s, successful, majority_spec(s.node_ids.len()), now_ms).commit_index
            != s.commit_index,
    ensures
        2 * successful > s.node_ids.len(),
{
}

/// A round that fewer nodes than `majority` accepted leaves the commit index and the state
/// machine as they were.
pub proof fn lemma_commit_needs_majority(s: StateView, successful: u32, majority: u32, now_ms: u128)
    requires
        successful < majority,
    ensures
        round_finished(s, successful, majority, now_ms).commit_index == s.commit_index,
        round_finished(s, successful, majority, now_ms).vars == s.vars,
        round_finished(s, successful, majority, now_ms).last_applied == s.last_applied,
{
}

} // verus!
