use vstd::prelude::*;

use crate::utils;
use crate::utils::trimmed_right;

verus! {

/// Phase of the link to the uplink.  Within one connection the phase only
/// moves forward: Connecting, Bursting, Connected, Quitting.
#[derive(Clone, Copy, Debug, PartialEq, Eq, Structural)]
pub enum ConnectionState {
    Quitting,
    Connecting,
    Bursting,
    Connected,
}

/// Order of the phases along a connection's life.
pub open spec fn state_rank(s: ConnectionState) -> int {
    match s {
        ConnectionState::Connecting => 0,
        ConnectionState::Bursting => 1,
        ConnectionState::Connected => 2,
        ConnectionState::Quitting => 3,
    }
}

/// A wire line with its trailing line terminators removed.
pub fn trim_bytes_right(input: &[u8]) -> (r: &[u8])
    ensures
        r@ == trimmed_right(input@),
{
    utils::trim_bytes_right(input)
}

} // verus!
