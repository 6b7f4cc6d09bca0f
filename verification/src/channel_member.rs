use vstd::prelude::*;

use crate::p10::P10MemberExt;
use crate::utils::bytes_of;

verus! {

/// Membership of one user in one channel, protocol-independent part.
pub struct BaseChannelMember {
    pub modes: u64,
    pub idle: u64,
}

/// Membership of one user in one channel.  The user is named by its
/// numnick, the stable identity on the wire.
pub struct ChannelMember {
    pub base: BaseChannelMember,
    pub user_numeric: Vec<u8>,
    pub ext: P10MemberExt,
}

impl BaseChannelMember {
    pub fn new() -> (r: Self)
        ensures
            r.modes == 0,
            r.idle == 0,
    {
        Self { modes: 0, idle: 0 }
    }
}

impl ChannelMember {
    pub fn new(user_numeric: &[u8]) -> (r: Self)
        ensures
            r.base.modes == 0,
            r.base.idle == 0,
            r.user_numeric@ == user_numeric@,
            r.ext.oplevel == 0,
    {
        Self {
            base: BaseChannelMember::new(),
            user_numeric: bytes_of(user_numeric),
            ext: P10MemberExt::new(),
        }
    }
}

} // verus!
