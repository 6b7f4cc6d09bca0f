use vstd::prelude::*;

use crate::channel_member::ChannelMember;
use crate::p10::P10ChannelExt;
use crate::utils::bytes_of;

verus! {

/// A channel of the network, with its ordered membership list.
pub struct Channel {
    pub name: Vec<u8>,
    pub topic: Vec<u8>,
    pub topic_nick: Vec<u8>,
    pub topic_time: u64,
    pub created: u64,
    pub modes: u64,
    pub limit: u64,
    pub key: Option<Vec<u8>>,
    pub bans: Vec<Vec<u8>>,
    pub members: Vec<ChannelMember>,
    pub ext: P10ChannelExt,
}

impl Channel {
    pub fn new(name: &[u8], created: u64) -> (r: Self)
        ensures
            r.name@ == name@,
            r.topic@.len() == 0,
            r.topic_nick@.len() == 0,
            r.topic_time == 0,
            r.created == created,
            r.modes == 0,
            r.limit == 0,
            r.key is None,
            r.bans@.len() == 0,
            r.members@.len() == 0,
            r.ext.delayed_join == false,
            r.ext.upass is None,
            r.ext.apass is None,
    {
        Self {
            name: bytes_of(name),
            topic: Vec::new(),
            topic_nick: Vec::new(),
            topic_time: 0,
            created,
            modes: 0,
            limit: 0,
            key: None,
            bans: Vec::new(),
            members: Vec::new(),
            ext: P10ChannelExt::new(),
        }
    }
}

} // verus!
