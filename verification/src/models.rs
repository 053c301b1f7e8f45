//! The record that the exit keeps of one client.

use vstd::prelude::*;

verus! {

/// One row of the table of clients.
#[derive(Debug, Clone, Default)]
pub struct Client {
    pub mesh_ip: String,
    pub wg_pubkey: String,
    pub wg_port: i32,
    pub eth_address: String,
    pub internal_ip: String,
    pub nickname: String,
    pub email: String,
    pub phone: String,
    pub country: String,
    pub email_code: String,
    pub verified: bool,
    pub email_sent_time: i64,
    pub text_sent: bool,
    pub last_seen: i64,
}

} // verus!
