//! Finding out who the neighbors are: every neighbor on a link is asked for
//! its identity, and those that answer are the neighbors to make tunnels to.

use crate::identity::{Identity, MeshIp};
use crate::peer_listener::SocketAddress;
use vstd::prelude::*;

verus! {

/// The port on which a neighbor says who it is.
pub const HELLO_PORT: u16 = 4876;

/// Why a neighbor's identity could not be had.
#[derive(Debug, Clone, PartialEq, Eq)]
pub enum Error {
    KernelInterfaceError,
    HttpReqError,
    IOError,
    DeserializationError,
    HTTPParseError,
    TunnelManagerError(String),
}

/// What is said of a neighbor with an IPv4 address.
pub open spec fn ipv4_message() -> Seq<char> {
    "IPv4 neighbours are not supported"@
}

/// The socket address at which the neighbor at `ip`, on the interface with
/// index `iface_index`, is asked for its identity. Only IPv6 neighbors can
/// be asked.
pub fn neighbor_socket(ip: MeshIp, iface_index: u32) -> (r: Result<SocketAddress, Error>)
    ensures
        match ip {
            MeshIp::V6(bits) => r == Ok::<SocketAddress, Error>(
                SocketAddress { ip: bits, port: HELLO_PORT, flowinfo: 0, scope_id: iface_index },
            ),
            MeshIp::V4(_) => r matches Err(Error::TunnelManagerError(message)) && message@
                == ipv4_message(),
        },
{
    match ip {
        MeshIp::V6(ip_v6) => Ok(
            SocketAddress { ip: ip_v6, port: HELLO_PORT, flowinfo: 0, scope_id: iface_index },
        ),
        MeshIp::V4(_) => Err(
            Error::TunnelManagerError("IPv4 neighbours are not supported".to_owned()),
        ),
    }
}

/// The identities among `answers`, in their order.
pub open spec fn identities_of(answers: Seq<Result<Identity, Error>>) -> Seq<Identity>
    decreases answers.len(),
{
    if answers.len() == 0 {
        Seq::empty()
    } else {
        let before = identities_of(answers.drop_last());
        match answers.last() {
            Ok(identity) => before.push(identity),
            Err(_) => before,
        }
    }
}

/// Keeps the neighbors that said who they are.
pub fn get_neighbors(answers: &Vec<Result<Identity, Error>>) -> (neighbors: Vec<Identity>)
    ensures
        neighbors@ == identities_of(answers@),
{
    let mut neighbors: Vec<Identity> = Vec::new();
    let mut i: usize = 0;
    while i < answers.len()
        invariant
            i <= answers.len(),
            neighbors@ == identities_of(answers@.take(i as int)),
        decreases answers.len() - i,
    {
        assert(answers@.take(i + 1).drop_last() == answers@.take(i as int));
        match &answers[i] {
            Ok(identity) => {
                neighbors.push(*identity);
            },
            Err(_) => {},
        }
        i += 1;
    }
    assert(answers@.take(answers@.len() as int) == answers@);
    neighbors
}

} // verus!
