//! Who a peer is: its tunnel key, its address on the mesh and its payment
//! address.

use crate::table::TableKey;
use vstd::prelude::*;

verus! {

/// An Ethereum address, as `clarity` holds it. The library carries it and
/// never looks inside.
#[verifier::external_type_specification]
#[verifier::external_body]
pub struct ExAddress(clarity::Address);

/// The public key of a tunnel: thirty-two bytes, as two big-endian halves.
#[derive(Debug, Clone, Copy, PartialEq, Eq, Hash, Structural)]
pub struct WgKey {
    pub hi: u128,
    pub lo: u128,
}

impl TableKey for WgKey {
    fn same(&self, other: &Self) -> (r: bool) {
        self.hi == other.hi && self.lo == other.lo
    }
}

/// An address on the mesh: the bits of an IPv4 or of an IPv6 address.
#[derive(Debug, Clone, Copy, PartialEq, Eq, Hash, Structural)]
pub enum MeshIp {
    V4(u32),
    V6(u128),
}

impl TableKey for MeshIp {
    fn same(&self, other: &Self) -> (r: bool) {
        match (*self, *other) {
            (MeshIp::V4(a), MeshIp::V4(b)) => a == b,
            (MeshIp::V6(a), MeshIp::V6(b)) => a == b,
            _ => false,
        }
    }
}

/// The identity of a node.
#[derive(Debug, Clone, Copy)]
pub struct Identity {
    pub mesh_ip: MeshIp,
    pub eth_address: clarity::Address,
    pub wg_public_key: WgKey,
}

} // verus!
