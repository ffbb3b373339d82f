//! What a node does with the requests that other nodes send it.
use crate::rpc;
use crate::rpc::{all_commands_present, entries_message_view, entry_message_view};
use crate::state::{
    applied, apply_terminates, command_key, lemma_replay_keeps_untouched,
    lemma_replay_last_write_wins, log_view, CommandView, Command, EntryView, LogEntry, Role, State, StateView,
};
use vstd::prelude::*;

verus! {

/// Turns a log entry received on the wire into a log entry; the command must be present.
pub fn convert_proto_entry(entry: &rpc::LogEntry) -> (e: LogEntry)
    requires
        entry.command.is_some(),
    ensures
        entry_message_view(*entry) == Some(e@),
{
    let command = match &entry.command {
        Some(rpc::Command::WriteVar(w)) => Command::WriteVar { name: w.name.clone(), value: w.value },
        Some(rpc::Command::DeleteVar(d)) => Command::DeleteVar { name: d.name.clone() },
        Some(rpc::Command::Noop(_)) => Command::Noop,
        None => Command::Noop,
    };
    LogEntry { term: entry.term, command }
}

/// Whether a follower in state `s` accepts entries sent in `term` that follow the entry at
/// 1-based index `prev_log_index`, written in `prev_log_term` (index 0: the start of the log).
pub open spec fn append_accepted(s: StateView, term: u32, prev_log_index: u32, prev_log_term: u32) -> bool {
    &&& s.current_term <= term
    &&& prev_log_index > 0 ==> (prev_log_index <= s.log.len() && s.log[prev_log_index - 1].term
        == prev_log_term)
}

/// The state of a follower once it has accepted entries: its log keeps the first
/// `prev_log_index` entries followed by the new ones, it takes the sender's term and
/// commit index, and it applies what is committed.
pub open spec fn after_append(
    s: StateView,
    term: u32,
    entries: Seq<EntryView>,
    prev_log_index: u32,
    leader_commit: u32,
) -> StateView {
    applied(
        StateView {
            log: s.log.take(prev_log_index as int) + entries,
            current_term: term,
            commit_index: leader_commit,
            ..s
        },
    )
}

/// What handling an append request does to the state, and the `(success, term)` answer.
pub open spec fn append_outcome(
    s: StateView,
    term: u32,
    leader_id: Seq<char>,
    entries: Seq<EntryView>,
    prev_log_index: u32,
    prev_log_term: u32,
    leader_commit: u32,
) -> (StateView, (bool, u32)) {
    let s1 = StateView { leader_id: Some(leader_id), ..s };
    if append_accepted(s, term, prev_log_index, prev_log_term) {
        (after_append(s1, term, entries, prev_log_index, leader_commit), (true, term))
    } else {
        (s1, (false, s.current_term))
    }
}

/// What a call of `maybe_append_entries` needs: on the path that accepts the entries,
/// each carries a command, and the new commit index lies within the new log or has
/// been applied already.
pub open spec fn append_allowed(
    s: StateView,
    term: u32,
    entries: Seq<rpc::LogEntry>,
    prev_log_index: u32,
    prev_log_term: u32,
    leader_commit: u32,
) -> bool {
    append_accepted(s, term, prev_log_index, prev_log_term) ==> {
        &&& all_commands_present(entries)
        &&& apply_terminates(
            StateView {
                log: s.log.take(prev_log_index as int) + entries_message_view(entries),
                commit_index: leader_commit,
                ..s
            },
        )
    }
}

/// Handles the entries that the leader `leader_id` sends: they are refused when the term is
/// older than the current one or when the log does not hold the entry they follow;
/// otherwise the log is cut after that entry, the new entries are appended, the term and
/// commit index are taken from the leader and the committed entries are applied.
/// Gives back whether the entries were accepted and the node's term.
pub fn maybe_append_entries(
    state: &mut State,
    term: u32,
    leader_id: &str,
    entries: &Vec<rpc::LogEntry>,
    prev_log_index: u32,
    prev_log_term: u32,
    leader_commit: u32,
) -> (r: (bool, u32))
    requires
        append_allowed(old(state)@, term, entries@, prev_log_index, prev_log_term, leader_commit),
    ensures
        (final(state)@, r) == append_outcome(
            old(state)@,
            term,
            leader_id@,
            entries_message_view(entries@),
            prev_log_index,
            prev_log_term,
            leader_commit,
        ),
{
    let ghost s0 = state@;
    state.volatile.leader_id = Some(leader_id.to_owned());

    if term < state.get_current_term() {
        return (false, state.get_current_term());
    }
    let prev_log_index = prev_log_index as usize;
    if prev_log_index > 0 && state.get_log().len() <= prev_log_index - 1 {
        return (false, state.get_current_term());
    }
    if prev_log_index > 0 && state.get_log()[prev_log_index - 1].term != prev_log_term {
        proof {
            assert(s0.log[prev_log_index - 1] == state.persisted.log@[prev_log_index - 1]@);
        }
        return (false, state.get_current_term());
    }
    proof {
        if prev_log_index > 0 {
            assert(s0.log[prev_log_index - 1] == state.persisted.log@[prev_log_index - 1]@);
        }
    }
    state.truncate_log(prev_log_index);
    let ghost cut = state@;
    let mut i: usize = 0;
    while i < entries.len()
        invariant
            i <= entries@.len(),
            all_commands_present(entries@),
            state@ == (StateView {
                log: cut.log + entries_message_view(entries@.take(i as int)),
                ..cut
            }),
        decreases entries@.len() - i,
    {
        let e = convert_proto_entry(&entries[i]);
        let ghost before = state@;
        state.append_log_entry(e);
        i = i + 1;
        proof {
            assert(entries_message_view(entries@.take(i as int)) =~= entries_message_view(
                entries@.take(i - 1),
            ).push(e@));
            assert(state@.log =~= cut.log + entries_message_view(entries@.take(i as int)));
        }
    }
    proof {
        assert(entries@.take(i as int) =~= entries@);
    }
    state.set_current_term(term);
    state.volatile.commit_index = leader_commit;
    state.apply_committed();
    (true, state.get_current_term())
}

/// Why a node cannot take an append request.
#[derive(Clone, Copy, Debug, PartialEq, Eq, Structural)]
pub enum AppendProblem {
    /// An entry that would be accepted carries no command.
    MissingCommand,
    /// The sender's commit index lies past the log the node would hold, so that applying
    /// the committed entries would never end.
    CommitBeyondLog,
}

/// Checks whether `maybe_append_entries` can take the entries, and says why not.
pub fn check_append_entries(
    state: &State,
    term: u32,
    entries: &Vec<rpc::LogEntry>,
    prev_log_index: u32,
    prev_log_term: u32,
    leader_commit: u32,
) -> (r: Option<AppendProblem>)
    ensures
        r.is_none() == append_allowed(state@, term, entries@, prev_log_index, prev_log_term, leader_commit),
        r == Some(AppendProblem::MissingCommand) ==> !all_commands_present(entries@),
        r == Some(AppendProblem::CommitBeyondLog) ==> all_commands_present(entries@),
{
    let ghost s = state@;
    let log = state.get_log();
    assert(log_view(log@).len() == log@.len());
    let accepted = if term < state.get_current_term() {
        false
    } else if prev_log_index == 0 {
        true
    } else if (prev_log_index as usize) > log.len() {
        false
    } else {
        proof {
            assert(s.log[prev_log_index - 1] == log@[prev_log_index - 1]@);
        }
        log[(prev_log_index - 1) as usize].term == prev_log_term
    };
    assert(accepted == append_accepted(s, term, prev_log_index, prev_log_term));
    if !accepted {
        return None;
    }
    let mut i: usize = 0;
    while i < entries.len()
        invariant
            i <= entries@.len(),
            append_accepted(state@, term, prev_log_index, prev_log_term),
            forall|j: int| 0 <= j < i ==> (#[trigger] entries@[j]).command.is_some(),
        decreases entries@.len() - i,
    {
        if entries[i].command.is_none() {
            assert(entries@[i as int].command.is_none());
            return Some(AppendProblem::MissingCommand);
        }
        i = i + 1;
    }
    let ghost new_log = s.log.take(prev_log_index as int) + entries_message_view(entries@);
    assert(new_log.len() == prev_log_index + entries@.len());
    if state.volatile.last_applied < leader_commit
        && leader_commit > prev_log_index && ((leader_commit - prev_log_index) as usize) > entries.len() {
        return Some(AppendProblem::CommitBeyondLog);
    }
    None
}

/// What handling a vote request does to the state, and the `(term, granted)` answer.
pub open spec fn vote_outcome(s: StateView, candidate_term: u32, candidate_id: Seq<char>) -> (
    StateView,
    (u32, bool),
) {
    if candidate_term < s.current_term {
        (s, (s.current_term, false))
    } else if s.voted_for.is_some() && s.voted_for != Some(candidate_id) && candidate_term
        == s.current_term {
        (s, (candidate_term, false))
    } else {
        (
            StateView { voted_for: Some(candidate_id), current_term: candidate_term, ..s },
            (candidate_term, true),
        )
    }
}

/// Decides on a vote request: the vote is refused to a candidate whose term is older than
/// the current one, and to a second candidate in the term in which the node already
/// voted; otherwise the node votes for the candidate and takes its term.
/// Gives back the term and whether the vote was granted.
pub fn calculate_vote(state: &mut State, candidate_term: u32, candidate_id: &str) -> (r: (u32, bool))
    ensures
        (final(state)@, r) == vote_outcome(old(state)@, candidate_term, candidate_id@),
{
    if candidate_term < state.get_current_term() {
        return (state.get_current_term(), false);
    }
    let candidate = candidate_id.to_owned();
    let voted_for_other = match &state.persisted.voted_for {
        Some(v) => *v != candidate,
        None => false,
    };
    if voted_for_other && candidate_term == state.get_current_term() {
        return (candidate_term, false);
    }
    state.set_voted_for(Some(candidate));
    state.set_current_term(candidate_term);
    (candidate_term, true)
}

/// Handles an append request received at time `now_ms`: a leader whose term is older
/// than the request's steps down, the heartbeat clock restarts, and the entries are
/// handled by `maybe_append_entries`.
pub fn handle_append_entries(state: &mut State, request: &rpc::AppendEntriesRequest, now_ms: u128) -> (r:
    rpc::AppendEntriesResponse)
    requires
        append_allowed(
            old(state)@,
            request.term,
            request.entries@,
            request.prev_log_index,
            request.prev_log_term,
            request.leader_commit,
        ),
    ensures
        ({
            let s1 = StateView {
                role: if old(state)@.role == Role::Leader && old(state)@.current_term < request.term {
                    Role::Follower
                } else {
                    old(state)@.role
                },
                last_heartbeat_ms: now_ms,
                ..old(state)@
            };
            let (s2, (success, term)) = append_outcome(
                s1,
                request.term,
                request.leader_id@,
                entries_message_view(request.entries@),
                request.prev_log_index,
                request.prev_log_term,
                request.leader_commit,
            );
            final(state)@ == s2 && r == (rpc::AppendEntriesResponse { term, success })
        }),
{
    if state.role == Role::Leader && state.get_current_term() < request.term {
        state.role = Role::Follower;
    }
    state.last_heartbeat_timestamp_ms = now_ms;
    let (success, term) = maybe_append_entries(
        state,
        request.term,
        request.leader_id.as_str(),
        &request.entries,
        request.prev_log_index,
        request.prev_log_term,
        request.leader_commit,
    );
    rpc::AppendEntriesResponse { term, success }
}

/// Handles a vote request received at time `now_ms`: the heartbeat clock restarts, so
/// that fewer nodes stand at once, and the vote is decided by `calculate_vote`.
pub fn handle_request_vote(state: &mut State, request: &rpc::RequestVoteRequest, now_ms: u128) -> (r:
    rpc::RequestVoteResponse)
    ensures
        ({
            let s1 = StateView { last_heartbeat_ms: now_ms, ..old(state)@ };
            let (s2, (term, vote_granted)) = vote_outcome(s1, request.term, request.candidate_id@);
            final(state)@ == s2 && r == (rpc::RequestVoteResponse { term, vote_granted })
        }),
{
    state.last_heartbeat_timestamp_ms = now_ms;
    let (term, vote_granted) = calculate_vote(state, request.term, request.candidate_id.as_str());
    rpc::RequestVoteResponse { term, vote_granted }
}

/// A node never grants its vote to two different candidates in the same term.
pub proof fn lemma_one_vote_per_term(s: StateView, term: u32, first: Seq<char>, second: Seq<char>)
    requires
        first != second,
        vote_outcome(s, term, first).1.1,
    ensures
        !vote_outcome(vote_outcome(s, term, first).0, term, second).1.1,
{
}

/// A granted vote is recorded: the node then holds the candidate's term and its vote.
pub proof fn lemma_granted_vote_recorded(s: StateView, term: u32, candidate: Seq<char>)
    requires
        vote_outcome(s, term, candidate).1.1,
    ensures
        vote_outcome(s, term, candidate).0.current_term == term,
        vote_outcome(s, term, candidate).0.voted_for == Some(candidate),
        s.current_term <= term,
{
}

/// Neither a vote nor an append request ever lowers the current term, and the term that
/// the node answers with is its term afterwards.
pub proof fn lemma_requests_keep_term_monotone(
    s: StateView,
    term: u32,
    id: Seq<char>,
    entries: Seq<EntryView>,
    prev_log_index: u32,
    prev_log_term: u32,
    leader_commit: u32,
)
    ensures
        s.current_term <= vote_outcome(s, term, id).0.current_term,
        vote_outcome(s, term, id).1.0 == vote_outcome(s, term, id).0.current_term,
        s.current_term <= append_outcome(
            s,
            term,
            id,
            entries,
            prev_log_index,
            prev_log_term,
            leader_commit,
        ).0.current_term,
        append_outcome(s, term, id, entries, prev_log_index, prev_log_term, leader_commit).1.1
            == append_outcome(
            s,
            term,
            id,
            entries,
            prev_log_index,
            prev_log_term,
            leader_commit,
        ).0.current_term,
{
}

/// Accepted entries never disturb the entries before the one they follow, and stand right
/// after it, in order.
pub proof fn lemma_append_keeps_prefix(
    s: StateView,
    term: u32,
    id: Seq<char>,
    entries: Seq<EntryView>,
    prev_log_index: u32,
    prev_log_term: u32,
    leader_commit: u32,
)
    requires
        append_accepted(s, term, prev_log_index, prev_log_term),
    ensures
        ({
            let log = append_outcome(s, term, id, entries, prev_log_index, prev_log_term, leader_commit).0.log;
            &&& log.len() == prev_log_index + entries.len()
            &&& forall|i: int| 0 <= i < prev_log_index ==> log[i] == s.log[i]
            &&& forall|i: int| 0 <= i < entries.len() ==> log[prev_log_index + i] == entries[i]
        }),
{
}

/// An accepted append whose commit index lies past what was applied applies every newly
/// committed entry of the new log, in order, and none after the commit index: the node
/// ends with the new log, the sender's term and commit index, everything up to the commit
/// index applied, and each variable that no newly committed entry names as it was.
pub proof fn lemma_append_applies_committed(
    s: StateView,
    term: u32,
    id: Seq<char>,
    entries: Seq<EntryView>,
    prev_log_index: u32,
    prev_log_term: u32,
    leader_commit: u32,
    k: Seq<char>,
)
    requires
        append_accepted(s, term, prev_log_index, prev_log_term),
        s.last_applied < leader_commit <= prev_log_index + entries.len(),
        forall|i: int| s.last_applied <= i < leader_commit ==> command_key(
            #[trigger] (s.log.take(prev_log_index as int) + entries)[i].command,
        ) != Some(k),
    ensures
        ({
            let t = append_outcome(s, term, id, entries, prev_log_index, prev_log_term, leader_commit).0;
            &&& t.log == s.log.take(prev_log_index as int) + entries
            &&& t.current_term == term
            &&& t.commit_index == leader_commit
            &&& t.last_applied == leader_commit
            &&& t.vars.contains_key(k) == s.vars.contains_key(k)
            &&& s.vars.contains_key(k) ==> t.vars[k] == s.vars[k]
        }),
{
    let log = s.log.take(prev_log_index as int) + entries;
    lemma_replay_keeps_untouched(s.vars, log, s.last_applied as int, leader_commit as int, k);
}

/// In an accepted append, each variable ends with what the last newly committed entry that
/// names it did: a write leaves exactly the written value, a delete leaves no value, and
/// no entry up to the commit index is skipped.
pub proof fn lemma_append_honours_last_write(
    s: StateView,
    term: u32,
    id: Seq<char>,
    entries: Seq<EntryView>,
    prev_log_index: u32,
    prev_log_term: u32,
    leader_commit: u32,
    j: int,
    k: Seq<char>,
)
    requires
        append_accepted(s, term, prev_log_index, prev_log_term),
        leader_commit <= prev_log_index + entries.len(),
        s.last_applied <= j < leader_commit,
        command_key((s.log.take(prev_log_index as int) + entries)[j].command) == Some(k),
        forall|i: int| j < i < leader_commit ==> command_key(
            #[trigger] (s.log.take(prev_log_index as int) + entries)[i].command,
        ) != Some(k),
    ensures
        ({
            let t = append_outcome(s, term, id, entries, prev_log_index, prev_log_term, leader_commit).0;
            match (s.log.take(prev_log_index as int) + entries)[j].command {
                CommandView::WriteVar { name: _, value } => t.vars.contains_key(k) && t.vars[k] == value,
                CommandView::DeleteVar { name: _ } => !t.vars.contains_key(k),
                CommandView::Noop => true,
            }
        }),
{
    let log = s.log.take(prev_log_index as int) + entries;
    lemma_replay_last_write_wins(s.vars, log, s.last_applied as int, leader_commit as int, j, k);
}

/// An accepted append whose commit index is not past what was applied applies nothing.
pub proof fn lemma_append_without_new_commit(
    s: StateView,
    term: u32,
    id: Seq<char>,
    entries: Seq<EntryView>,
    prev_log_index: u32,
    prev_log_term: u32,
    leader_commit: u32,
)
    requires
        append_accepted(s, term, prev_log_index, prev_log_term),
        leader_commit <= s.last_applied,
    ensures
        append_outcome(s, term, id, entries, prev_log_index, prev_log_term, leader_commit).0.vars == s.vars,
        append_outcome(s, term, id, entries, prev_log_index, prev_log_term, leader_commit).0.last_applied
            == s.last_applied,
{
}

/// A vote is granted exactly when the candidate's term is at least the node's and the
/// node has not voted for another candidate in that term: no vote yet, a vote for the
/// same candidate, or a newer term.  A granted vote records the candidate and its term; a
/// refused one changes nothing and answers with the node's own term.
pub proof fn lemma_vote_rule(s: StateView, candidate_term: u32, candidate_id: Seq<char>)
    ensures
        vote_outcome(s, candidate_term, candidate_id).1.1 == (s.current_term <= candidate_term && (
        s.voted_for.is_none() || s.voted_for == Some(candidate_id) || s.current_term
            < candidate_term)),
        vote_outcome(s, candidate_term, candidate_id).1.1 ==> {
            &&& vote_outcome(s, candidate_term, candidate_id).1.0 == candidate_term
            &&& vote_outcome(s, candidate_term, candidate_id).0.voted_for == Some(candidate_id)
            &&& vote_outcome(s, candidate_term, candidate_id).0.current_term == candidate_term
        },
        !vote_outcome(s, candidate_term, candidate_id).1.1 ==> {
            &&& vote_outcome(s, candidate_term, candidate_id).1.0 == s.current_term
            &&& vote_outcome(s, candidate_term, candidate_id).0 == s
        },
{
}

/// A node that has not voted grants its vote to any candidate whose term is at least its own.
pub proof fn lemma_unvoted_node_grants(s: StateView, candidate_term: u32, candidate_id: Seq<char>)
    requires
        s.voted_for.is_none(),
        s.current_term <= candidate_term,
    ensures
        vote_outcome(s, candidate_term, candidate_id).1 == (candidate_term, true),
        vote_outcome(s, candidate_term, candidate_id).0.voted_for == Some(candidate_id),
{
}

/// An entry that goes over the wire arrives as the entry that was sent.
pub proof fn lemma_entry_round_trip(sent: LogEntry, message: rpc::LogEntry, received: LogEntry)
    requires
        entry_message_view(message) == Some(sent@),
        entry_message_view(message) == Some(received@),
    ensures
        received@ == sent@,
{
}

/// A follower that accepts an update carrying a leader's whole log from its start ends
/// up with exactly that log.
pub proof fn lemma_full_update_copies_log(
    s: StateView,
    term: u32,
    leader_id: Seq<char>,
    leader_log: Seq<EntryView>,
    leader_commit: u32,
)
    requires
        s.current_term <= term,
    ensures
        append_outcome(s, term, leader_id, leader_log, 0, 0, leader_commit).1.0,
        append_outcome(s, term, leader_id, leader_log, 0, 0, leader_commit).0.log == leader_log,
{
    assert(s.log.take(0) + leader_log =~= leader_log);
}

/// What the RPC server does once it stopped serving.
#[derive(Clone, Copy, Debug, PartialEq, Eq, Structural)]
pub enum ServeStep {
    /// It was shut down: stop.
    Stop,
    /// The transport failed, most often because the port is still taken: wait, then serve again.
    RetryAfterPause,
    /// Any other failure: give up and report it.
    Fail,
}

/// Whether `pattern` occurs in `text` as a run of consecutive characters.
pub open spec fn contains_text(text: Seq<char>, pattern: Seq<char>) -> bool {
    exists|i: int| 0 <= i <= text.len() - pattern.len() && #[trigger] text.subrange(i, i + pattern.len())
        == pattern
}

/// Whether `pattern` occurs in `text`.
pub fn text_contains(text: &str, pattern: &str) -> (b: bool)
    ensures
        b == contains_text(text@, pattern@),
{
    let n = text.unicode_len();
    let m = pattern.unicode_len();
    if m > n {
        proof {
            assert forall|i: int| 0 <= i <= n - m implies #[trigger] text@.subrange(i, i + m) != pattern@ by {}
        }
        return false;
    }
    let mut i: usize = 0;
    while i <= n - m
        invariant
            n == text@.len(),
            m == pattern@.len(),
            m <= n,
            i <= n - m + 1,
            forall|k: int| 0 <= k < i ==> #[trigger] text@.subrange(k, k + m) != pattern@,
        decreases n - m + 1 - i,
    {
        let mut j: usize = 0;
        let mut same = true;
        while j < m
            invariant
                n == text@.len(),
                m == pattern@.len(),
                i + m <= n,
                j <= m,
                same == (forall|k: int| 0 <= k < j ==> text@[i + k] == pattern@[k]),
            decreases m - j,
        {
            if text.get_char(i + j) != pattern.get_char(j) {
                same = false;
            }
            j = j + 1;
        }
        if same {
            proof {
                assert(text@.subrange(i as int, i + m) =~= pattern@);
            }
            return true;
        }
        proof {
            let k = choose|k: int| 0 <= k < m && text@[i + k] != pattern@[k];
            assert(text@.subrange(i as int, i + m)[k] != pattern@[k]);
        }
        i = i + 1;
    }
    false
}

/// The words by which a failed transport names itself in its error message.
pub open spec fn transport_error_words() -> Seq<char> {
    seq!['t', 'r', 'a', 'n', 's', 'p', 'o', 'r', 't', ' ', 'e', 'r', 'r', 'o', 'r']
}

/// What the RPC server does once serving ended, with no error or with an error whose
/// message is `error`: a clean end stops it; an error that reports a transport error,
/// most often a port not released yet, makes it serve again after a pause; any other
/// error ends it with that error.
pub fn after_serve(error: Option<&str>) -> (step: ServeStep)
    ensures
        step == match error {
            None => ServeStep::Stop,
            Some(message) => if contains_text(message@, transport_error_words()) {
                ServeStep::RetryAfterPause
            } else {
                ServeStep::Fail
            },
        },
{
    match error {
        None => ServeStep::Stop,
        Some(message) => {
            let words = "transport error";
            proof {
                reveal_strlit("transport error");
                assert(words@ =~= transport_error_words());
            }
            if text_contains(message, words) {
                ServeStep::RetryAfterPause
            } else {
                ServeStep::Fail
            }
        },
    }
}

} // verus!
