//! Retransmission constants for each message type.

use vstd::prelude::*;

verus! {

/// Max delay of first Solicit
pub const SOL_MAX_DELAY: u32 = 1;
/// Initial Solicit timeout
pub const SOL_TIMEOUT: u32 = 1;
/// Max Solicit timeout value
pub const SOL_MAX_RT: u32 = 120;
/// Initial Request timeout
pub const REQ_TIMEOUT: u32 = 1;
/// Max Request timeout value
pub const REQ_MAX_RT: u32 = 30;
/// Max Request retry attempts
pub const REQ_MAX_RC: u32 = 10;
/// Max delay of first Confirm
pub const CNF_MAX_DELAY: u32 = 1;
/// Initial Confirm timeout
pub const CNF_TIMEOUT: u32 = 1;
/// Max Confirm timeout
pub const CNF_MAX_RT: u32 = 4;
/// Max Confirm duration
pub const CNF_MAX_RD: u32 = 10;
/// Initial Renew timeout
pub const REN_TIMEOUT: u32 = 10;
/// Max Renew timeout value
pub const REN_MAX_RT: u32 = 600;
/// Initial Rebind timeout
pub const REB_TIMEOUT: u32 = 10;
/// Max Rebind timeout value
pub const REB_MAX_RT: u32 = 600;
/// Max delay of first Information-request
pub const INF_MAX_DELAY: u32 = 1;
/// Initial Information-request timeout
pub const INF_TIMEOUT: u32 = 1;
/// Max Information-request timeout value
pub const INF_MAX_RT: u32 = 120;
/// Initial Release timeout
pub const REL_TIMEOUT: u32 = 1;
/// Max Release attempts
pub const REL_MAX_RC: u32 = 5;
/// Initial Decline timeout
pub const DEC_TIMEOUT: u32 = 1;
/// Max Decline attempts
pub const DEC_MAX_RC: u32 = 5;
/// Initial Reconfigure timeout
pub const REC_TIMEOUT: u32 = 2;
/// Max Reconfigure attempts
pub const REC_MAX_RC: u32 = 8;
/// Max hop count in a Relay-forward message
pub const HOP_COUNT_LIMIT: u32 = 32;

} // verus!
