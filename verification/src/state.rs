use crate::str_map::StrMap;
use crate::text::{decimal, decimal_string};
use crate::util::get_current_time_ms;
use vstd::prelude::*;

verus! {

/// A command of the replicated state machine, as it stands in the log.
#[derive(Clone, Debug, PartialEq)]
pub enum Command {
    WriteVar { name: String, value: i32 },
    DeleteVar { name: String },
    Noop,
}

/// One entry of the replicated log.
#[derive(Clone, Debug, PartialEq)]
pub struct LogEntry {
    pub term: u32,
    pub command: Command,
}

/// The abstract value of a `Command`.
pub enum CommandView {
    WriteVar { name: Seq<char>, value: i32 },
    DeleteVar { name: Seq<char> },
    Noop,
}

/// The abstract value of a `LogEntry`.
pub struct EntryView {
    pub term: u32,
    pub command: CommandView,
}

impl View for Command {
    type V = CommandView;

    open spec fn view(&self) -> CommandView {
        match self {
            Command::WriteVar { name, value } => CommandView::WriteVar { name: name@, value: *value },
            Command::DeleteVar { name } => CommandView::DeleteVar { name: name@ },
            Command::Noop => CommandView::Noop,
        }
    }
}

impl View for LogEntry {
    type V = EntryView;

    open spec fn view(&self) -> EntryView {
        EntryView { term: self.term, command: self.command@ }
    }
}

/// The state that must survive a restart: the current term, the vote cast in it, and the log.
pub struct PersistedState {
    pub current_term: u32,
    pub voted_for: Option<String>,
    pub log: Vec<LogEntry>,
}

pub struct VolatileState {
    pub commit_index: u32,
    pub last_applied: u32,
    /// Believed id of the leader node.
    pub leader_id: Option<String>,
}

/// What a leader believes of each follower's log.
pub struct VolatileLeaderState {
    pub next_index: StrMap<u32>,
    pub match_index: StrMap<u32>,
}

/// The replicated state machine: a set of integer variables.
pub struct StateMachine {
    pub vars: StrMap<i32>,
}

#[derive(PartialEq, Eq, Structural, Debug, Clone, Copy)]
pub enum Role {
    Follower,
    Candidate,
    Leader,
}

/// The whole state of a raft node.
pub struct State {
    pub persisted: PersistedState,
    pub volatile: VolatileState,
    pub volatile_leader: Option<VolatileLeaderState>,
    pub state_machine: StateMachine,
    /// The directory where the persisted state is kept, if any.
    pub storage_path: Option<String>,
    /// Role of the node.
    pub role: Role,
    /// For followers: the last time that a heartbeat was received from the leader, in this
    /// machine's local time. For the leader: the last time that a heartbeat was sent.
    pub last_heartbeat_timestamp_ms: u128,
    /// Ids of the nodes of the ring.
    pub node_ids: Vec<String>,
    /// Id of the current node.
    pub node_id: String,
}

/// The abstract value of a leader's view of its followers.
pub struct LeaderView {
    pub next_index: Map<Seq<char>, u32>,
    pub match_index: Map<Seq<char>, u32>,
}

/// The abstract value of a `State`.
pub struct StateView {
    pub current_term: u32,
    pub voted_for: Option<Seq<char>>,
    pub log: Seq<EntryView>,
    pub commit_index: u32,
    pub last_applied: u32,
    pub leader_id: Option<Seq<char>>,
    pub leader: Option<LeaderView>,
    pub vars: Map<Seq<char>, i32>,
    pub storage_path: Option<Seq<char>>,
    pub role: Role,
    pub last_heartbeat_ms: u128,
    pub node_ids: Seq<Seq<char>>,
    pub node_id: Seq<char>,
}

pub open spec fn opt_string_view(o: Option<String>) -> Option<Seq<char>> {
    match o {
        Some(s) => Some(s@),
        None => None,
    }
}

pub open spec fn log_view(log: Seq<LogEntry>) -> Seq<EntryView> {
    log.map_values(|e: LogEntry| e@)
}

pub open spec fn strings_view(v: Seq<String>) -> Seq<Seq<char>> {
    v.map_values(|s: String| s@)
}

pub open spec fn leader_view(l: Option<VolatileLeaderState>) -> Option<LeaderView> {
    match l {
        Some(l) => Some(LeaderView { next_index: l.next_index@, match_index: l.match_index@ }),
        None => None,
    }
}

impl View for State {
    type V = StateView;

    open spec fn view(&self) -> StateView {
        StateView {
            current_term: self.persisted.current_term,
            voted_for: opt_string_view(self.persisted.voted_for),
            log: log_view(self.persisted.log@),
            commit_index: self.volatile.commit_index,
            last_applied: self.volatile.last_applied,
            leader_id: opt_string_view(self.volatile.leader_id),
            leader: leader_view(self.volatile_leader),
            vars: self.state_machine.vars@,
            storage_path: opt_string_view(self.storage_path),
            role: self.role,
            last_heartbeat_ms: self.last_heartbeat_timestamp_ms,
            node_ids: strings_view(self.node_ids@),
            node_id: self.node_id@,
        }
    }
}

/// The effect of one command on the variables of the state machine.
pub open spec fn apply_command(vars: Map<Seq<char>, i32>, c: CommandView) -> Map<Seq<char>, i32> {
    match c {
        CommandView::WriteVar { name, value } => vars.insert(name, value),
        CommandView::DeleteVar { name } => vars.remove(name),
        CommandView::Noop => vars,
    }
}

/// The variables after applying, in order, the commands of the entries at log indexes
/// `from + 1 ..= to` (1-based, as raft numbers them) to `vars`.
pub open spec fn apply_entries(vars: Map<Seq<char>, i32>, log: Seq<EntryView>, from: int, to: int) -> Map<
    Seq<char>,
    i32,
>
    decreases to - from,
{
    if to <= from {
        vars
    } else {
        apply_command(apply_entries(vars, log, from, to - 1), log[to - 1].command)
    }
}

/// The state after every committed entry that was not applied yet has been applied.
pub open spec fn applied(s: StateView) -> StateView {
    if s.last_applied < s.commit_index {
        StateView {
            last_applied: s.commit_index,
            vars: apply_entries(s.vars, s.log, s.last_applied as int, s.commit_index as int),
            ..s
        }
    } else {
        s
    }
}

/// Whether applying the committed entries comes to an end: there is nothing to apply, or
/// every committed index is in the log.
pub open spec fn apply_terminates(s: StateView) -> bool {
    s.last_applied < s.commit_index ==> s.commit_index <= s.log.len()
}

/// The state of a node that has just started: the ring `0 .. num_nodes`, no log, no vote.
pub open spec fn fresh_state(
    num_nodes: nat,
    node_id: Seq<char>,
    storage_path: Option<Seq<char>>,
    last_heartbeat_ms: u128,
) -> StateView {
    StateView {
        current_term: 0,
        voted_for: None,
        log: Seq::empty(),
        commit_index: 0,
        last_applied: 0,
        leader_id: None,
        leader: None,
        vars: Map::empty(),
        storage_path,
        role: Role::Follower,
        last_heartbeat_ms,
        node_ids: Seq::new(num_nodes, |i: int| decimal(i as nat)),
        node_id,
    }
}

/// The value of a freshly made `State`.
pub open spec fn default_state() -> StateView {
    StateView {
        current_term: 0,
        voted_for: None,
        log: Seq::empty(),
        commit_index: 0,
        last_applied: 0,
        leader_id: None,
        leader: None,
        vars: Map::empty(),
        storage_path: None,
        role: Role::Follower,
        last_heartbeat_ms: 0,
        node_ids: Seq::empty(),
        node_id: Seq::empty(),
    }
}

/// The state of a node that has just become leader: it believes every node of the ring
/// misses everything after its own log.
pub open spec fn leader_started(s: StateView) -> StateView {
    StateView {
        role: Role::Leader,
        leader: Some(
            LeaderView {
                next_index: Map::new(
                    |k: Seq<char>| s.node_ids.contains(k),
                    |k: Seq<char>| ((s.log.len() as u32) + 1) as u32,
                ),
                match_index: Map::new(|k: Seq<char>| s.node_ids.contains(k), |k: Seq<char>| 0u32),
            },
        ),
        ..s
    }
}

/// The state of a node that stops being leader.
pub open spec fn leader_stopped(s: StateView) -> StateView {
    StateView { role: Role::Follower, leader: None, ..s }
}

pub fn clone_opt_string(o: &Option<String>) -> (r: Option<String>)
    ensures
        opt_string_view(r) == opt_string_view(*o),
{
    match o {
        Some(s) => Some(s.clone()),
        None => None,
    }
}

impl Default for Role {
    fn default() -> (r: Self)
        ensures
            r == Role::Follower,
    {
        Role::Follower
    }
}

impl Default for VolatileState {
    fn default() -> (r: Self)
        ensures
            r.commit_index == 0,
            r.last_applied == 0,
            r.leader_id.is_none(),
    {
        VolatileState { commit_index: 0, last_applied: 0, leader_id: None }
    }
}

impl Default for VolatileLeaderState {
    fn default() -> (r: Self)
        ensures
            r.next_index@ == Map::<Seq<char>, u32>::empty(),
            r.match_index@ == Map::<Seq<char>, u32>::empty(),
    {
        VolatileLeaderState { next_index: StrMap::new(), match_index: StrMap::new() }
    }
}

impl Default for StateMachine {
    fn default() -> (r: Self)
        ensures
            r.vars@ == Map::<Seq<char>, i32>::empty(),
    {
        StateMachine { vars: StrMap::new() }
    }
}

impl Default for PersistedState {
    fn default() -> (r: Self)
        ensures
            r.current_term == 0,
            r.voted_for.is_none(),
            r.log@.len() == 0,
    {
        PersistedState { current_term: 0, voted_for: None, log: Vec::new() }
    }
}

impl Default for State {
    fn default() -> (r: Self)
        ensures
            r@ == default_state(),
    {
        let r = State {
            persisted: PersistedState { current_term: 0, voted_for: None, log: Vec::new() },
            volatile: VolatileState { commit_index: 0, last_applied: 0, leader_id: None },
            volatile_leader: None,
            state_machine: StateMachine { vars: StrMap::new() },
            storage_path: None,
            role: Role::Follower,
            last_heartbeat_timestamp_ms: 0,
            node_ids: Vec::new(),
            node_id: String::new(),
        };
        assert(r@.log =~= Seq::<EntryView>::empty());
        assert(r@.node_ids =~= Seq::<Seq<char>>::empty());
        r
    }
}

impl State {
    /// Applies to the state machine, in log order, every committed entry that was not
    /// applied yet.
    pub fn apply_committed(&mut self)
        requires
            apply_terminates(old(self)@),
        ensures
            final(self)@ == applied(old(self)@),
    {
        let ghost start = self@;
        while self.volatile.last_applied < self.volatile.commit_index
            invariant
                apply_terminates(start),
                self.volatile.commit_index == start.commit_index,
                start.last_applied <= self.volatile.last_applied,
                start.last_applied < start.commit_index ==> self.volatile.last_applied
                    <= start.commit_index,
                start.last_applied >= start.commit_index ==> self.volatile.last_applied
                    == start.last_applied,
                self@ == (StateView {
                    last_applied: self.volatile.last_applied,
                    vars: apply_entries(
                        start.vars,
                        start.log,
                        start.last_applied as int,
                        self.volatile.last_applied as int,
                    ),
                    ..start
                }),
            decreases self.volatile.commit_index - self.volatile.last_applied,
        {
            let next_index = self.volatile.last_applied + 1;
            let entry = &self.persisted.log[(next_index - 1) as usize];
            proof {
                assert(start.log[next_index - 1] == entry@);
            }
            match &entry.command {
                Command::WriteVar { name, value } => {
                    self.state_machine.vars.insert(name.clone(), *value);
                },
                Command::DeleteVar { name } => {
                    self.state_machine.vars.remove(name.as_str());
                },
                Command::Noop => {},
            }
            self.volatile.last_applied = next_index;
        }
    }

    pub fn get_current_term(&self) -> (t: u32)
        ensures
            t == self@.current_term,
    {
        self.persisted.current_term
    }

    pub fn get_voted_for(&self) -> (v: Option<String>)
        ensures
            opt_string_view(v) == self@.voted_for,
    {
        clone_opt_string(&self.persisted.voted_for)
    }

    pub fn get_log(&self) -> (log: &Vec<LogEntry>)
        ensures
            log_view(log@) == self@.log,
    {
        &self.persisted.log
    }

    /// Sets the current term and gives it back.
    pub fn set_current_term(&mut self, term: u32) -> (t: u32)
        ensures
            t == term,
            final(self)@ == (StateView { current_term: term, ..old(self)@ }),
    {
        self.persisted.current_term = term;
        self.persisted.current_term
    }

    /// Records the node voted for in the current term and gives it back.
    pub fn set_voted_for(&mut self, node_id: Option<String>) -> (v: Option<String>)
        ensures
            opt_string_view(v) == opt_string_view(node_id),
            final(self)@ == (StateView { voted_for: opt_string_view(node_id), ..old(self)@ }),
    {
        let v = clone_opt_string(&node_id);
        self.persisted.voted_for = node_id;
        v
    }

    /// Appends an entry at the end of the log.
    pub fn append_log_entry(&mut self, entry: LogEntry)
        ensures
            final(self)@ == (StateView { log: old(self)@.log.push(entry@), ..old(self)@ }),
    {
        self.persisted.log.push(entry);
        proof {
            assert(self@.log =~= old(self)@.log.push(entry@));
        }
    }

    /// Keeps the first `index` entries of the log and drops the others.
    pub fn truncate_log(&mut self, index: usize)
        requires
            index <= old(self)@.log.len(),
        ensures
            final(self)@ == (StateView { log: old(self)@.log.take(index as int), ..old(self)@ }),
    {
        self.persisted.log.truncate(index);
        proof {
            assert(self@.log =~= old(self)@.log.take(index as int));
        }
    }

    /// Takes back what was read from storage: a term written as four little-endian bytes,
    /// the node voted for (an empty text meaning none), and the log.  What is missing or
    /// malformed leaves the matching part of the state as it is.
    pub fn restore_persisted_state(
        &mut self,
        term_bytes: Option<Vec<u8>>,
        voted_for: Option<String>,
        log: Option<Vec<LogEntry>>,
    )
        ensures
            final(self)@ == (StateView {
                current_term: match term_bytes {
                    Some(b) => match decoded_term(b@) {
                        Some(t) => t,
                        None => old(self)@.current_term,
                    },
                    None => old(self)@.current_term,
                },
                voted_for: match voted_for {
                    Some(v) => if v@.len() > 0 {
                        Some(v@)
                    } else {
                        old(self)@.voted_for
                    },
                    None => old(self)@.voted_for,
                },
                log: match log {
                    Some(l) => log_view(l@),
                    None => old(self)@.log,
                },
                ..old(self)@
            }),
    {
        if let Some(bytes) = term_bytes {
            if let Some(t) = decode_term(bytes.as_slice()) {
                self.persisted.current_term = t;
            }
        }
        if let Some(v) = voted_for {
            if v.as_str().unicode_len() > 0 {
                self.persisted.voted_for = Some(v);
            }
        }
        if let Some(l) = log {
            self.persisted.log = l;
        }
    }
}

/// The four bytes, least significant first, that store `t`.
pub open spec fn term_bytes(t: u32) -> Seq<u8> {
    seq![
        (t % 256) as u8,
        ((t / 256) % 256) as u8,
        ((t / 65536) % 256) as u8,
        (t / 16777216) as u8,
    ]
}

/// The term that stored bytes hold: four bytes, least significant first.
pub open spec fn decoded_term(b: Seq<u8>) -> Option<u32> {
    if b.len() == 4 {
        Some((b[0] + 256 * b[1] + 65536 * b[2] + 16777216 * b[3]) as u32)
    } else {
        None
    }
}

/// The bytes under which a term is stored.
pub fn encode_term(t: u32) -> (b: Vec<u8>)
    ensures
        b@ == term_bytes(t),
{
    let mut b: Vec<u8> = Vec::new();
    b.push((t % 256) as u8);
    b.push(((t / 256) % 256) as u8);
    b.push(((t / 65536) % 256) as u8);
    b.push((t / 16777216) as u8);
    assert(b@ =~= term_bytes(t));
    b
}

/// The term held by stored bytes, if they have the length of one.
pub fn decode_term(b: &[u8]) -> (t: Option<u32>)
    ensures
        t == decoded_term(b@),
{
    if b.len() == 4 {
        let v: u32 = b[0] as u32 + 256 * (b[1] as u32) + 65536 * (b[2] as u32) + 16777216 * (b[3] as u32);
        Some(v)
    } else {
        None
    }
}

/// A stored term reads back as the term that was written.
pub proof fn lemma_term_round_trip(t: u32)
    ensures
        decoded_term(term_bytes(t)) == Some(t),
{
    let b = term_bytes(t);
    assert(b[0] + 256 * b[1] + 65536 * b[2] + 16777216 * b[3] == t) by (nonlinear_arith)
        requires
            b[0] == t % 256,
            b[1] == (t / 256) % 256,
            b[2] == (t / 65536) % 256,
            b[3] == t / 16777216,
            t <= u32::MAX,
    ;
}

/// A new node of a ring of `num_nodes` nodes, with ids `0 .. num_nodes`.  The state is
/// empty and its heartbeat clock starts now; reading what was persisted under
/// `storage_path` is left to the caller.
pub fn init_state(num_nodes: u16, node_id: &str, storage_path: Option<String>) -> (s: State)
    ensures
        s@ == fresh_state(num_nodes as nat, node_id@, opt_string_view(storage_path), s@.last_heartbeat_ms),
{
    let mut state = State::default();
    state.storage_path = storage_path;
    let mut i: u16 = 0;
    assert(state@.node_ids =~= Seq::new(0, |j: int| decimal(j as nat)));
    while i < num_nodes
        invariant
            i <= num_nodes,
            state@ == (StateView {
                storage_path: opt_string_view(storage_path),
                node_ids: Seq::new(i as nat, |j: int| decimal(j as nat)),
                ..default_state()
            }),
        decreases num_nodes - i,
    {
        let id = decimal_string(i as u32);
        let ghost ids0 = state@.node_ids;
        let ghost v0 = state.node_ids@;
        let ghost idv = id@;
        state.node_ids.push(id);
        i = i + 1;
        proof {
            assert(state.node_ids@ == v0.push(state.node_ids@.last()));
            assert(state.node_ids@.len() == v0.len() + 1);
            assert(ids0.len() == i - 1);
            assert(ids0 == strings_view(v0));
            assert(v0.len() == i - 1);
            assert(state@.node_ids.len() == i);
            assert forall|j: int| 0 <= j < i implies #[trigger] state@.node_ids[j] == decimal(j as nat) by {
                if j < i - 1 {
                    assert(state@.node_ids[j] == ids0[j]);
                }
            }
            assert(state@.node_ids =~= Seq::new(i as nat, |j: int| decimal(j as nat)));
        }
    }
    state.last_heartbeat_timestamp_ms = get_current_time_ms();
    state.node_id = node_id.to_owned();
    state
}

/// Makes the node leader: for each node of the ring it expects the next entry right after
/// its own log, and knows of no entry that the node holds.
pub fn init_leader_state(state: &mut State)
    requires
        (old(state)@.log.len() as u32) < u32::MAX,
    ensures
        final(state)@ == leader_started(old(state)@),
{
    let ghost s0 = state@;
    let next: u32 = state.get_log().len() as u32 + 1;
    let mut next_index: StrMap<u32> = StrMap::new();
    let mut match_index: StrMap<u32> = StrMap::new();
    let mut i: usize = 0;
    while i < state.node_ids.len()
        invariant
            state@ == s0,
            i <= s0.node_ids.len(),
            next == ((s0.log.len() as u32) + 1) as u32,
            next_index@ == Map::new(|k: Seq<char>| s0.node_ids.take(i as int).contains(k), |k: Seq<char>| next),
            match_index@ == Map::new(|k: Seq<char>| s0.node_ids.take(i as int).contains(k), |k: Seq<char>| 0u32),
        decreases state.node_ids@.len() - i,
    {
        let id = &state.node_ids[i];
        proof {
            assert(s0.node_ids[i as int] == id@);
        }
        next_index.insert(id.clone(), next);
        match_index.insert(id.clone(), 0);
        i = i + 1;
        proof {
            let ghost p: int = i - 1;
            let ghost before = s0.node_ids.take(p);
            let ghost after = s0.node_ids.take(i as int);
            assert forall|k: Seq<char>| #[trigger] after.contains(k) == (before.contains(k) || k == id@) by {
                if after.contains(k) {
                    let j = choose|j: int| 0 <= j < after.len() && after[j] == k;
                    if j < p {
                        assert(before[j] == k);
                    }
                }
                if before.contains(k) {
                    let j = choose|j: int| 0 <= j < before.len() && before[j] == k;
                    assert(after[j] == k);
                }
                if k == id@ {
                    assert(after[p] == k);
                }
            }
            assert(next_index@ =~= Map::new(|k: Seq<char>| s0.node_ids.take(i as int).contains(k), |k: Seq<char>| next));
            assert(match_index@ =~= Map::new(|k: Seq<char>| s0.node_ids.take(i as int).contains(k), |k: Seq<char>| 0u32));
        }
    }
    proof {
        assert(s0.node_ids.take(i as int) =~= s0.node_ids);
    }
    state.role = Role::Leader;
    state.volatile_leader = Some(VolatileLeaderState { next_index, match_index });
    proof {
        assert(state@.leader == leader_started(s0).leader);
    }
}

/// Makes the node give up leadership: it becomes a follower and forgets what it believed
/// of the other nodes' logs.
pub fn reset_leader_state(state: &mut State)
    ensures
        final(state)@ == leader_stopped(old(state)@),
{
    state.role = Role::Follower;
    state.volatile_leader = None;
}

/// Applying committed entries in two steps gives the same variables as applying them in one.
pub proof fn lemma_apply_entries_split(vars: Map<Seq<char>, i32>, log: Seq<EntryView>, a: int, b: int, c: int)
    requires
        a <= b <= c,
    ensures
        apply_entries(apply_entries(vars, log, a, b), log, b, c) == apply_entries(vars, log, a, c),
    decreases c - b,
{
    if c > b {
        lemma_apply_entries_split(vars, log, a, b, c - 1);
    }
}

/// The state machine stays the replay of the applied part of the log: if its variables
/// are what applying the first `last_applied` entries to no variables gives, they still
/// are after the committed entries are applied.
pub proof fn lemma_state_machine_replays_log(s: StateView)
    requires
        s.vars == apply_entries(Map::empty(), s.log, 0, s.last_applied as int),
    ensures
        applied(s).vars == apply_entries(Map::empty(), s.log, 0, applied(s).last_applied as int),
{
    if s.last_applied < s.commit_index {
        lemma_apply_entries_split(Map::empty(), s.log, 0, s.last_applied as int, s.commit_index as int);
    }
}

/// The variable that a command acts on, if any.
pub open spec fn command_key(c: CommandView) -> Option<Seq<char>> {
    match c {
        CommandView::WriteVar { name, value: _ } => Some(name),
        CommandView::DeleteVar { name } => Some(name),
        CommandView::Noop => None,
    }
}

/// Replaying entries that never name the variable `k` leaves `k` as it was: present with
/// the same value, or absent.
pub proof fn lemma_replay_keeps_untouched(
    vars: Map<Seq<char>, i32>,
    log: Seq<EntryView>,
    from: int,
    to: int,
    k: Seq<char>,
)
    requires
        from <= to <= log.len(),
        forall|i: int| from <= i < to ==> command_key(#[trigger] log[i].command) != Some(k),
    ensures
        apply_entries(vars, log, from, to).contains_key(k) == vars.contains_key(k),
        vars.contains_key(k) ==> apply_entries(vars, log, from, to)[k] == vars[k],
    decreases to - from,
{
    if to > from {
        lemma_replay_keeps_untouched(vars, log, from, to - 1, k);
        assert(command_key(log[to - 1].command) != Some(k));
    }
}

/// After replaying entries, a variable holds what the last entry that names it did: the
/// value it wrote, or no value after a delete.
pub proof fn lemma_replay_last_write_wins(
    vars: Map<Seq<char>, i32>,
    log: Seq<EntryView>,
    from: int,
    to: int,
    j: int,
    k: Seq<char>,
)
    requires
        from <= j < to <= log.len(),
        command_key(log[j].command) == Some(k),
        forall|i: int| j < i < to ==> command_key(#[trigger] log[i].command) != Some(k),
    ensures
        ({
            let r = apply_entries(vars, log, from, to);
            match log[j].command {
                CommandView::WriteVar { name: _, value } => r.contains_key(k) && r[k] == value,
                CommandView::DeleteVar { name: _ } => !r.contains_key(k),
                CommandView::Noop => true,
            }
        }),
    decreases to - from,
{
    if to - 1 > j {
        lemma_replay_last_write_wins(vars, log, from, to - 1, j, k);
        assert(command_key(log[to - 1].command) != Some(k));
    }
}

/// Applying the committed entries moves `last_applied` up to the commit index (never
/// down), and leaves every variable that no newly applied entry names as it was.
pub proof fn lemma_apply_reaches_commit(s: StateView, k: Seq<char>)
    requires
        apply_terminates(s),
        forall|i: int| s.last_applied <= i < s.commit_index ==> command_key(#[trigger] s.log[i].command)
            != Some(k),
    ensures
        applied(s).last_applied == if s.last_applied < s.commit_index {
            s.commit_index
        } else {
            s.last_applied
        },
        applied(s).log == s.log,
        applied(s).commit_index == s.commit_index,
        applied(s).vars.contains_key(k) == s.vars.contains_key(k),
        s.vars.contains_key(k) ==> applied(s).vars[k] == s.vars[k],
{
    if s.last_applied < s.commit_index {
        lemma_replay_keeps_untouched(s.vars, s.log, s.last_applied as int, s.commit_index as int, k);
    }
}

/// Applying the committed entries gives each variable what the last newly committed entry
/// that names it did: a write leaves exactly the written value, whatever it is, and a
/// delete leaves no value.
pub proof fn lemma_apply_honours_last_write(s: StateView, j: int, k: Seq<char>)
    requires
        apply_terminates(s),
        s.last_applied <= j < s.commit_index,
        command_key(s.log[j].command) == Some(k),
        forall|i: int| j < i < s.commit_index ==> command_key(#[trigger] s.log[i].command) != Some(k),
    ensures
        match s.log[j].command {
            CommandView::WriteVar { name: _, value } => applied(s).vars.contains_key(k)
                && applied(s).vars[k] == value,
            CommandView::DeleteVar { name: _ } => !applied(s).vars.contains_key(k),
            CommandView::Noop => true,
        },
{
    lemma_replay_last_write_wins(s.vars, s.log, s.last_applied as int, s.commit_index as int, j, k);
}

/// Once the committed entries are applied, applying again changes nothing.
pub proof fn lemma_applied_idempotent(s: StateView)
    ensures
        applied(applied(s)) == applied(s),
{
}

/// Applying up to one commit index and then up to a later one is the same as applying up
/// to the later one at once.
pub proof fn lemma_applied_in_steps(s: StateView, first: u32, second: u32)
    requires
        s.last_applied <= first <= second,
    ensures
        applied(StateView { commit_index: second, ..applied(StateView { commit_index: first, ..s }) })
            == applied(StateView { commit_index: second, ..s }),
{
    let s1 = applied(StateView { commit_index: first, ..s });
    if s.last_applied < first {
        lemma_apply_entries_split(s.vars, s.log, s.last_applied as int, first as int, second as int);
    }
    assert(applied(StateView { commit_index: second, ..s1 }).vars == applied(StateView { commit_index: second, ..s }).vars);
}

} // verus!
