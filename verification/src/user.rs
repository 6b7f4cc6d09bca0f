use vstd::prelude::*;

use crate::core_data::Target;
use crate::p10::P10UserExt;
use crate::utils::bytes_of;

verus! {

/// A user of the network, protocol-independent part.
pub struct BaseUser {
    pub nick: Vec<u8>,
    pub ident: Vec<u8>,
    pub host: Vec<u8>,
    pub ip: Vec<u8>,
    pub gecos: Vec<u8>,
    pub modes: u64,
    pub account: Vec<u8>,
    pub away_message: Vec<u8>,
}

/// A user of the network.  `uplink` is the index of the owning server in
/// the global server list; `channels` lists the names of joined channels.
pub struct User {
    pub base: BaseUser,
    pub channels: Vec<Vec<u8>>,
    pub uplink: usize,
    pub ext: P10UserExt,
}

impl BaseUser {
    pub fn new(nick: &[u8], ident: &[u8], hostname: &[u8]) -> (r: Self)
        ensures
            r.nick@ == nick@,
            r.ident@ == ident@,
            r.host@ == hostname@,
            r.ip@.len() == 0,
            r.gecos@.len() == 0,
            r.modes == 0,
            r.account@.len() == 0,
            r.away_message@.len() == 0,
    {
        Self {
            nick: bytes_of(nick),
            ident: bytes_of(ident),
            host: bytes_of(hostname),
            ip: Vec::new(),
            gecos: Vec::new(),
            modes: 0,
            account: Vec::new(),
            away_message: Vec::new(),
        }
    }
}

impl Target for BaseUser {
    open spec fn target_spec(&self) -> Seq<u8> {
        self.nick@
    }

    fn get_target(&self) -> (t: Vec<u8>) {
        bytes_of(self.nick.as_slice())
    }
}

impl User {
    pub fn new(nick: &[u8], ident: &[u8], hostname: &[u8], uplink: usize) -> (r: Self)
        ensures
            r.base.nick@ == nick@,
            r.base.ident@ == ident@,
            r.base.host@ == hostname@,
            r.base.ip@.len() == 0,
            r.base.gecos@.len() == 0,
            r.base.modes == 0,
            r.base.account@.len() == 0,
            r.base.away_message@.len() == 0,
            r.channels@.len() == 0,
            r.uplink == uplink,
            r.ext.numeric@.len() == 0,
            r.ext.fakeident@.len() == 0,
            r.ext.fakehost@.len() == 0,
            r.ext.timestamp == 0,
    {
        Self {
            base: BaseUser::new(nick, ident, hostname),
            channels: Vec::new(),
            uplink,
            ext: P10UserExt::new(),
        }
    }
}


/// A fresh copy of a user's protocol-independent part, byte for byte.
pub fn copy_base_user(u: &BaseUser) -> (r: BaseUser)
    ensures
        r.nick@ == u.nick@,
        r.ident@ == u.ident@,
        r.host@ == u.host@,
        r.ip@ == u.ip@,
        r.gecos@ == u.gecos@,
        r.modes == u.modes,
        r.account@ == u.account@,
        r.away_message@ == u.away_message@,
{
    BaseUser {
        nick: bytes_of(u.nick.as_slice()),
        ident: bytes_of(u.ident.as_slice()),
        host: bytes_of(u.host.as_slice()),
        ip: bytes_of(u.ip.as_slice()),
        gecos: bytes_of(u.gecos.as_slice()),
        modes: u.modes,
        account: bytes_of(u.account.as_slice()),
        away_message: bytes_of(u.away_message.as_slice()),
    }
}

} // verus!
