//! A raft node: its persisted and volatile state, the replicated state machine, and the
//! decisions of followers, candidates and leaders.
pub mod election;
pub mod lite;
pub mod rpc;
pub mod rpc_server;
pub mod rpc_util;
pub mod state;
pub mod str_map;
pub mod text;
pub mod update;
pub mod util;
pub mod web;

use vstd::prelude::*;

verus! {

/// The greeting for `name`: `Hello, ` then the name then `!`.
pub open spec fn greeting(name: Seq<char>) -> Seq<char> {
    seq!['H', 'e', 'l', 'l', 'o', ',', ' '] + name + seq!['!']
}

/// Greets `name`.
pub fn greet(name: &str) -> (g: String)
    ensures
        g@ == greeting(name@),
{
    let mut g = "Hello, ".to_owned();
    g.append(name);
    g.append("!");
    proof {
        reveal_strlit("Hello, ");
        reveal_strlit("!");
        assert(g@ =~= greeting(name@));
    }
    g
}

} // verus!
