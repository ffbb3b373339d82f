use crate::text::{decimal, parse_u32, parse_u32_exec, push_decimal};
use vstd::prelude::*;

verus! {

/// The fixed start of every RPC server address: the IPv6 loopback host.
pub open spec fn rpc_address_prefix() -> Seq<char> {
    seq!['h', 't', 't', 'p', ':', '/', '/', '[', ':', ':', '1', ']', ':']
}

/// The RPC address of the node whose id is the number `id`: the loopback host at port
/// `50000 + id`.
pub open spec fn rpc_server_dst(id: u32) -> Seq<char> {
    rpc_address_prefix() + decimal(50000 + id as nat)
}

/// Calculates the RPC address of a node from its id, a decimal number.
pub fn calculate_rpc_server_dst(id: &str) -> (dst: String)
    requires
        parse_u32(id@).is_some(),
        parse_u32(id@).unwrap() + 50000 <= u32::MAX,
    ensures
        dst@ == rpc_server_dst(parse_u32(id@).unwrap()),
{
    let id_int = parse_u32_exec(id).unwrap();
    let mut dst = "http://[::1]:".to_owned();
    proof {
        reveal_strlit("http://[::1]:");
        assert(dst@ =~= rpc_address_prefix());
    }
    push_decimal(&mut dst, 50000 + id_int);
    dst
}

/// The RPC address of a node, or `None` when its id is not a decimal number or the port
/// would not fit in 32 bits.
pub fn rpc_server_dst_checked(id: &str) -> (dst: Option<String>)
    ensures
        dst.is_some() == (parse_u32(id@).is_some() && parse_u32(id@).unwrap() + 50000 <= u32::MAX),
        dst.is_some() ==> dst.unwrap()@ == rpc_server_dst(parse_u32(id@).unwrap()),
{
    match parse_u32_exec(id) {
        Some(v) => if v <= 4294917295 {
            Some(calculate_rpc_server_dst(id))
        } else {
            None
        },
        None => None,
    }
}

} // verus!
