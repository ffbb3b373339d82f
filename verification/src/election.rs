//! How a follower that no longer hears from a leader stands for election.
use crate::rpc;
use crate::state::{
    init_leader_state, leader_started, leader_stopped, reset_leader_state, Command, EntryView,
    CommandView, LogEntry, Role, State, StateView, strings_view,
};
use crate::update::{majority_of, majority_spec, peer_ids, peers};
use rand::rngs::StdRng;
use rand::Rng;
use vstd::prelude::*;

verus! {

/// How long a follower waits for a heartbeat before it stands for election, at least.
pub const ELECTION_TIMEOUT_MS: u64 = 200;

#[verifier::external_type_specification]
#[verifier::external_body]
pub struct ExStdRng(StdRng);

/// `Rng::gen_range(0..=max_ms)` on the generator: a value drawn from `0 ..= max_ms`.
/// The contract claims only that the value lies in that range.
#[verifier::external_body]
fn draw_jitter_ms(rng: &mut StdRng, max_ms: u64) -> (j: u64)
    ensures
        j <= max_ms,
{
    rng.gen_range(0..=max_ms)
}

/// Whether a node in state `s` has waited long enough at `now_ms`, with a random extra
/// wait of `jitter_ms`, to stand for election: only a follower stands.
pub open spec fn election_timed_out(s: StateView, now_ms: u128, jitter_ms: u64) -> bool {
    s.role == Role::Follower && now_ms - s.last_heartbeat_ms >= ELECTION_TIMEOUT_MS + jitter_ms
}

/// Whether a follower's clock has run at `now_ms` long enough, given the extra wait
/// `jitter_ms`, for it to stand for election.
pub fn election_due(state: &State, now_ms: u128, jitter_ms: u64) -> (b: bool)
    requires
        state@.role == Role::Follower ==> state@.last_heartbeat_ms <= now_ms,
    ensures
        b == election_timed_out(state@, now_ms, jitter_ms),
{
    if state.role != Role::Follower {
        return false;
    }
    let elapsed = now_ms - state.last_heartbeat_timestamp_ms;
    elapsed >= ELECTION_TIMEOUT_MS as u128 + jitter_ms as u128
}

/// Whether the node stands for election at `now_ms`.  The extra wait is drawn at random
/// from `0 ..= ELECTION_TIMEOUT_MS`, so that several nodes seldom stand at once: a
/// follower stands once it has heard nothing for twice the timeout, may stand after
/// the timeout, and never stands earlier.
pub fn should_start_election(state: &State, now_ms: u128, rng: &mut StdRng) -> (b: bool)
    requires
        state@.role == Role::Follower ==> state@.last_heartbeat_ms <= now_ms,
    ensures
        b ==> state@.role == Role::Follower,
        b ==> now_ms - state@.last_heartbeat_ms >= ELECTION_TIMEOUT_MS,
        state@.role == Role::Follower && now_ms - state@.last_heartbeat_ms >= 2 * ELECTION_TIMEOUT_MS
            ==> b,
{
    if state.role != Role::Follower {
        return false;
    }
    let jitter_ms = draw_jitter_ms(rng, ELECTION_TIMEOUT_MS);
    election_due(state, now_ms, jitter_ms)
}

/// The node's state once it stands for election: it votes for itself in the next term
/// and becomes a candidate.
pub open spec fn candidate_state(s: StateView) -> StateView {
    StateView {
        voted_for: Some(s.node_id),
        current_term: (s.current_term + 1) as u32,
        role: Role::Candidate,
        ..s
    }
}

/// The term of the last entry of a log, or 0 for an empty log.
pub open spec fn last_log_term(log: Seq<EntryView>) -> u32 {
    if log.len() == 0 {
        0
    } else {
        log.last().term
    }
}

/// An election that a node has opened: the vote request it sends and the nodes it sends
/// it to.
pub struct Ballot {
    pub request: rpc::RequestVoteRequest,
    pub voters: Vec<String>,
}

/// Opens an election: the node votes for itself, moves to the next term, becomes a
/// candidate, and asks each other node of the ring for its vote.
pub fn begin_election(state: &mut State) -> (b: Ballot)
    requires
        old(state)@.current_term < u32::MAX,
    ensures
        final(state)@ == candidate_state(old(state)@),
        b.request.term == final(state)@.current_term,
        b.request.candidate_id@ == old(state)@.node_id,
        b.request.last_log_index == old(state)@.log.len() as u32,
        b.request.last_log_term == last_log_term(old(state)@.log),
        strings_view(b.voters@) == peers(old(state)@),
{
    let node_id = state.node_id.clone();
    let log = state.get_log();
    let last_log_index = log.len() as u32;
    let last_log_term = if log.len() == 0 {
        0
    } else {
        log[log.len() - 1].term
    };
    proof {
        if state@.log.len() > 0 {
            assert(state@.log.last() == state.persisted.log@[state.persisted.log@.len() - 1]@);
        }
    }
    let voters = peer_ids(state);
    let current_term = state.get_current_term();
    state.set_voted_for(Some(node_id.clone()));
    let term = state.set_current_term(current_term + 1);
    state.role = Role::Candidate;
    Ballot {
        request: rpc::RequestVoteRequest {
            term,
            candidate_id: node_id,
            last_log_index,
            last_log_term,
        },
        voters,
    }
}

/// The votes an election gathered: the candidate's own and each one granted, and the
/// highest term among the refusals (0 when there is none).  A missing answer counts
/// for nothing.
pub open spec fn tally(answers: Seq<Option<rpc::RequestVoteResponse>>) -> (nat, u32)
    decreases answers.len(),
{
    if answers.len() == 0 {
        (1, 0)
    } else {
        let (votes, max_term) = tally(answers.drop_last());
        match answers.last() {
            Some(r) => if r.vote_granted {
                (votes + 1, max_term)
            } else {
                (votes, if r.term > max_term { r.term } else { max_term })
            },
            None => (votes, max_term),
        }
    }
}

/// What an election gathered.
#[derive(Clone, Copy, Debug, PartialEq, Eq, Structural)]
pub struct VoteTally {
    pub votes: u32,
    pub max_term: u32,
}

/// Counts the answers to a vote request.
pub fn tally_votes(answers: &Vec<Option<rpc::RequestVoteResponse>>) -> (t: VoteTally)
    requires
        answers@.len() < u32::MAX,
    ensures
        t.votes == tally(answers@).0,
        t.max_term == tally(answers@).1,
{
    let mut votes: u32 = 1;
    let mut max_term: u32 = 0;
    let mut i: usize = 0;
    while i < answers.len()
        invariant
            i <= answers@.len() < u32::MAX,
            (votes as nat, max_term) == tally(answers@.take(i as int)),
            votes <= i + 1,
        decreases answers@.len() - i,
    {
        proof {
            assert(answers@.take(i + 1).drop_last() =~= answers@.take(i as int));
        }
        match &answers[i] {
            Some(r) => {
                if r.vote_granted {
                    votes = votes + 1;
                } else if r.term > max_term {
                    max_term = r.term;
                }
            },
            None => {},
        }
        i = i + 1;
    }
    proof {
        assert(answers@.take(i as int) =~= answers@);
    }
    VoteTally { votes, max_term }
}

/// The node's state once the votes are counted: with more than half the ring it becomes
/// leader and opens its term with an empty entry; otherwise it goes back to being a
/// follower, first taking the highest term it met if that is newer than its own, with
/// no vote cast in it.
pub open spec fn election_concluded(s: StateView, votes: u32, max_term: u32) -> StateView {
    if votes >= majority_spec(s.node_ids.len()) {
        let l = leader_started(s);
        StateView {
            log: l.log.push(EntryView { term: l.current_term, command: CommandView::Noop }),
            ..l
        }
    } else {
        let s1 = if max_term > s.current_term {
            StateView { current_term: max_term, voted_for: None, ..s }
        } else {
            s
        };
        StateView { role: Role::Follower, ..s1 }
    }
}

/// Concludes an election with the votes counted; gives back whether the node won.
pub fn conclude_election(state: &mut State, tally: &VoteTally) -> (won: bool)
    requires
        tally.votes >= majority_spec(old(state)@.node_ids.len()) ==> (old(state)@.log.len() as u32)
            < u32::MAX,
    ensures
        won == (tally.votes >= majority_spec(old(state)@.node_ids.len())),
        final(state)@ == election_concluded(old(state)@, tally.votes, tally.max_term),
{
    let majority = majority_of(state.node_ids.len());
    if tally.votes >= majority {
        init_leader_state(state);
        let current_term = state.get_current_term();
        state.append_log_entry(LogEntry { term: current_term, command: Command::Noop });
        true
    } else {
        if tally.max_term > state.get_current_term() {
            let current_term = state.get_current_term();
            let term = if tally.max_term > current_term {
                tally.max_term
            } else {
                current_term
            };
            state.set_current_term(term);
            state.set_voted_for(None);
        }
        state.role = Role::Follower;
        false
    }
}

/// Keeps the leadership that an election won only if at least `majority` nodes, the
/// leader included, took its first update; otherwise the node goes back to being a
/// follower, so that another node can take over.  Gives back whether it stays leader.
pub fn confirm_leadership(state: &mut State, successful: u32, majority: u32) -> (kept: bool)
    ensures
        kept == (successful >= majority),
        final(state)@ == if kept {
            old(state)@
        } else {
            leader_stopped(old(state)@)
        },
{
    if successful < majority {
        reset_leader_state(state);
        return false;
    }
    true
}

/// Standing for election moves the node exactly one term on, and it votes for itself.
pub proof fn lemma_candidate_votes_for_itself(s: StateView)
    requires
        s.current_term < u32::MAX,
    ensures
        candidate_state(s).current_term == s.current_term + 1,
        candidate_state(s).voted_for == Some(s.node_id),
        candidate_state(s).log == s.log,
{
}

/// A node that wins an election leads with an empty entry of its own term at the end of
/// its log, and expects every node of the ring to need that entry.
pub proof fn lemma_winner_opens_its_term(s: StateView, votes: u32, max_term: u32)
    requires
        votes >= majority_spec(s.node_ids.len()),
        (s.log.len() as u32) < u32::MAX,
    ensures
        ({
            let t = election_concluded(s, votes, max_term);
            &&& s.node_ids.len() / 2 + 1 <= u32::MAX ==> 2 * votes > s.node_ids.len()
            &&& t.role == Role::Leader
            &&& t.current_term == s.current_term
            &&& t.log == s.log.push(EntryView { term: s.current_term, command: CommandView::Noop })
            &&& forall|id: Seq<char>| #[trigger] s.node_ids.contains(id) ==> t.leader.unwrap().next_index[id]
                == (s.log.len() as u32) + 1 && t.leader.unwrap().match_index[id] == 0
        }),
{
}

/// A losing candidate takes the highest term it met only when that term is newer than its
/// own, and then forgets its vote; otherwise it keeps its term and the vote it cast in it.
pub proof fn lemma_loser_keeps_vote_of_its_term(s: StateView, votes: u32, max_term: u32)
    requires
        votes < majority_spec(s.node_ids.len()),
    ensures
        election_concluded(s, votes, max_term).current_term == if max_term > s.current_term {
            max_term
        } else {
            s.current_term
        },
        max_term <= s.current_term ==> election_concluded(s, votes, max_term).voted_for == s.voted_for,
        max_term > s.current_term ==> election_concluded(s, votes, max_term).voted_for.is_none(),
{
}

/// The highest refusal term of a tally is at least the term of every refusal.
pub proof fn lemma_tally_term_bounds_refusals(answers: Seq<Option<rpc::RequestVoteResponse>>, i: int)
    requires
        0 <= i < answers.len(),
        answers[i].is_some(),
        !answers[i].unwrap().vote_granted,
    ensures
        answers[i].unwrap().term <= tally(answers).1,
    decreases answers.len(),
{
    if i < answers.len() - 1 {
        lemma_tally_term_bounds_refusals(answers.drop_last(), i);
        lemma_tally_term_grows(answers);
    }
}

/// Counting one more answer never lowers the highest refusal term.
proof fn lemma_tally_term_grows(answers: Seq<Option<rpc::RequestVoteResponse>>)
    requires
        answers.len() > 0,
    ensures
        tally(answers.drop_last()).1 <= tally(answers).1,
{
}

/// The highest refusal term of a tally is 0 or the term of one of the refusals.
pub proof fn lemma_tally_term_is_a_refusal(answers: Seq<Option<rpc::RequestVoteResponse>>)
    ensures
        tally(answers).1 == 0 || exists|i: int|
            0 <= i < answers.len() && (#[trigger] answers[i]).is_some() && !answers[i].unwrap().vote_granted
                && answers[i].unwrap().term == tally(answers).1,
    decreases answers.len(),
{
    if answers.len() > 0 {
        let rest = answers.drop_last();
        lemma_tally_term_is_a_refusal(rest);
        if tally(answers).1 != 0 && tally(answers).1 == tally(rest).1 {
            let i = choose|i: int|
                0 <= i < rest.len() && (#[trigger] rest[i]).is_some() && !rest[i].unwrap().vote_granted
                    && rest[i].unwrap().term == tally(rest).1;
            assert(answers[i] == rest[i]);
        } else if tally(answers).1 != 0 {
            assert(answers[answers.len() - 1] == answers.last());
        }
    }
}

/// A node that loses an election is a follower whose term never went down.
pub proof fn lemma_loser_follows(s: StateView, votes: u32, max_term: u32)
    requires
        votes < majority_spec(s.node_ids.len()),
    ensures
        election_concluded(s, votes, max_term).role == Role::Follower,
        election_concluded(s, votes, max_term).current_term >= s.current_term,
        election_concluded(s, votes, max_term).log == s.log,
{
}

} // verus!
