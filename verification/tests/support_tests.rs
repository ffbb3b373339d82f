use raft::greet;
use raft::rpc_util::calculate_rpc_server_dst;
use raft::state::{init_leader_state, init_state};
use raft::str_map::StrMap;
use raft::text::{decimal_string, parse_u32_exec};
use raft::util::get_current_time_ms;
use raft::web::{lookup_variable, propose_write, VariableLookup};

#[test]
fn rpc_destination_from_id() {
    assert_eq!(calculate_rpc_server_dst("0"), "http://[::1]:50000");
    assert_eq!(calculate_rpc_server_dst("2"), "http://[::1]:50002");
    assert_eq!(calculate_rpc_server_dst("+17"), "http://[::1]:50017");
    assert_eq!(calculate_rpc_server_dst("007"), "http://[::1]:50007");
}

#[test]
fn decimal_writing() {
    assert_eq!(decimal_string(0), "0");
    assert_eq!(decimal_string(9), "9");
    assert_eq!(decimal_string(10), "10");
    assert_eq!(decimal_string(4_294_967_295), "4294967295");
}

#[test]
fn parse_like_std() {
    for s in [
        "0", "42", "+42", "4294967295", "4294967296", "", "+", "-1", "12a", " 1", "99999999999",
        "0004",
    ] {
        assert_eq!(parse_u32_exec(s), s.parse::<u32>().ok(), "input {:?}", s);
    }
}

#[test]
fn str_map_insert_get_remove() {
    let mut m: StrMap<i32> = StrMap::new();
    assert_eq!(m.len(), 0);
    assert_eq!(m.insert("a".to_string(), 1), None);
    assert_eq!(m.insert("b".to_string(), 2), None);
    assert_eq!(m.insert("a".to_string(), 3), Some(1));
    assert_eq!(m.len(), 2);
    assert_eq!(m.get("a"), Some(&3));
    assert!(m.contains_key("b"));
    assert_eq!(m.remove("b"), Some(2));
    assert_eq!(m.remove("b"), None);
    assert!(!m.contains_key("b"));
    assert_eq!(m.len(), 1);
}

#[test]
fn greet_says_hello() {
    assert_eq!(greet("World"), "Hello, World!");
    assert_eq!(greet(""), "Hello, !");
}

#[test]
fn clock_reads_after_epoch() {
    let a = get_current_time_ms();
    let b = get_current_time_ms();
    assert!(a > 1_600_000_000_000);
    assert!(b >= a);
}

#[test]
fn only_leader_serves_variables() {
    let mut state = init_state(3, "0", None);
    assert_eq!(lookup_variable(&state, "x"), VariableLookup::NotLeader(None));
    state.volatile.leader_id = Some("2".to_string());
    assert_eq!(
        propose_write(&mut state, "x".to_string(), 5),
        Err(Some("2".to_string()))
    );
    assert!(state.get_log().is_empty());
    init_leader_state(&mut state);
    assert_eq!(lookup_variable(&state, "x"), VariableLookup::NotSet);
    assert_eq!(propose_write(&mut state, "x".to_string(), 5), Ok(()));
    assert_eq!(state.get_log().len(), 1);
    state.volatile.commit_index = 1;
    state.apply_committed();
    assert_eq!(lookup_variable(&state, "x"), VariableLookup::Found(5));
}
