use vstd::prelude::*;

use crate::p10::P10ServExt;
use crate::utils::bytes_of;

verus! {

/// A server of the network, protocol-independent part.
pub struct BaseServer {
    pub hostname: Vec<u8>,
    pub description: Vec<u8>,
    pub hops: i8,
    pub boot: u64,
    pub link_time: u64,
}

/// A server of the network.  Servers are held in the global server list
/// and referred to by their index there; a server is never removed, so the
/// indices are stable.  `users` lists the numnicks of the users this
/// server owns.
pub struct Server {
    pub base: BaseServer,
    pub uplink: Option<usize>,
    pub children: Vec<usize>,
    pub users: Vec<Vec<u8>>,
    pub ext: P10ServExt,
}

impl BaseServer {
    pub fn new(hostname: &[u8], description: &[u8]) -> (r: Self)
        ensures
            r.hostname@ == hostname@,
            r.description@ == description@,
            r.hops == 0,
            r.boot == 0,
            r.link_time == 0,
    {
        Self {
            hostname: bytes_of(hostname),
            description: bytes_of(description),
            hops: 0,
            boot: 0,
            link_time: 0,
        }
    }
}

impl Server {
    pub fn new(hostname: &[u8], description: &[u8]) -> (r: Self)
        ensures
            r.base.hostname@ == hostname@,
            r.base.description@ == description@,
            r.base.hops == 0,
            r.base.boot == 0,
            r.base.link_time == 0,
            r.uplink is None,
            r.children@.len() == 0,
            r.users@.len() == 0,
            r.ext.numeric@.len() == 0,
            r.ext.glines@.len() == 0,
            r.ext.self_burst == true,
            r.ext.numeric_accum == 0,
    {
        Self {
            base: BaseServer::new(hostname, description),
            uplink: None,
            children: Vec::new(),
            users: Vec::new(),
            ext: P10ServExt::new(),
        }
    }
}

/// A fresh copy of a server's protocol-independent part, byte for byte.
pub fn copy_base_server(s: &BaseServer) -> (r: BaseServer)
    ensures
        r.hostname@ == s.hostname@,
        r.description@ == s.description@,
        r.hops == s.hops,
        r.boot == s.boot,
        r.link_time == s.link_time,
{
    BaseServer {
        hostname: bytes_of(s.hostname.as_slice()),
        description: bytes_of(s.description.as_slice()),
        hops: s.hops,
        boot: s.boot,
        link_time: s.link_time,
    }
}

} // verus!
