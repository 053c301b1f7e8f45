//! Settings of the subnet DAOs that this node is a member of.

use vstd::prelude::*;

verus! {

/// A 256-bit unsigned integer, as `num256` holds it. The library carries it
/// and never looks inside.
#[verifier::external_type_specification]
#[verifier::external_body]
pub struct ExUint256(num256::Uint256);

/// A `num256::Uint256` is plain data that is copied bit for bit: the clone is
/// the value itself.
pub assume_specification[ <num256::Uint256 as Clone>::clone ](fee: &num256::Uint256) -> (r:
    num256::Uint256)
    ensures
        r == *fee,
;

/// The first node that is asked for blockchain data.
pub open spec fn first_node() -> Seq<char> {
    "https://eth.althea.org:443"@
}

/// The second node that is asked for blockchain data.
pub open spec fn second_node() -> Seq<char> {
    "https://mainnet.infura.io/v3/6b080f02d7004a8394444cdf232a7081"@
}

/// The nodes to query for blockchain data where the settings name none.
pub fn default_node_list() -> (nodes: Vec<String>)
    ensures
        nodes@.len() == 2,
        nodes@[0]@ == first_node(),
        nodes@[1]@ == second_node(),
{
    let mut nodes: Vec<String> = Vec::new();
    nodes.push("https://eth.althea.org:443".to_owned());
    nodes.push("https://mainnet.infura.io/v3/6b080f02d7004a8394444cdf232a7081".to_owned());
    nodes
}

/// The DAOs that this node is a member of where the settings name none.
pub fn default_dao_address() -> (addresses: Vec<clarity::Address>)
    ensures
        addresses@.len() == 0,
{
    Vec::new()
}

/// A fee of nothing, from `num256::Uint256::default`.
#[verifier::external_body]
fn no_fee() -> num256::Uint256 {
    num256::Uint256::default()
}

/// The subnet DAOs of this node and what it pays them.
#[derive(Debug, Clone, Eq, PartialEq)]
pub struct SubnetDAOSettings {
    /// A list of nodes to query for blockchain data
    /// this is kept seperate from the version for payment settings node
    /// list in order to allow for the DAO and payments to exist on different
    /// chains, provided in name:port format
    pub node_list: Vec<String>,
    /// List of subnet DAO's to which we are a member
    pub dao_addresses: Vec<clarity::Address>,
    /// The amount in wei that will be sent to the dao in one second
    pub dao_fee: num256::Uint256,
}

impl Default for SubnetDAOSettings {
    /// Settings that name no node and no DAO.
    fn default() -> (settings: SubnetDAOSettings)
        ensures
            settings.node_list@.len() == 0,
            settings.dao_addresses@.len() == 0,
    {
        SubnetDAOSettings {
            node_list: Vec::new(),
            dao_addresses: default_dao_address(),
            dao_fee: no_fee(),
        }
    }
}

} // verus!
