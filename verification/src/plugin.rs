use vstd::prelude::*;

use crate::server::BaseServer;
use crate::utils::bytes_of;

verus! {

/// The closed set of events a plugin can listen for.
#[derive(Clone, Copy, Debug, PartialEq, Eq, Structural)]
pub enum HookType {
    UserConnected,
    UserQuit,
    ServerBursting,
    ServerEndOfBurst,
    ServerSplit,
    PrivmsgChan,
    PrivmsgBot,
    NoticeChan,
    NoticeBot,
}

/// The record handed to a hook when it fires.
pub struct HookData {
    pub hook_type: HookType,
    pub server: Option<BaseServer>,
    pub origin: Vec<u8>,
    pub target: Vec<u8>,
    pub message: Vec<u8>,
    pub argc: usize,
    pub argv: Vec<Vec<u8>>,
}

impl HookData {
    pub fn new(hook_type: HookType) -> (r: Self)
        ensures
            r.hook_type == hook_type,
            r.server is None,
            r.origin@.len() == 0,
            r.target@.len() == 0,
            r.message@.len() == 0,
            r.argc == 0,
            r.argv@.len() == 0,
    {
        Self {
            hook_type,
            server: None,
            origin: Vec::new(),
            target: Vec::new(),
            message: Vec::new(),
            argc: 0,
            argv: Vec::new(),
        }
    }
}

/// Failure reported by a plugin's callback.
pub struct HookError {
    pub message: Vec<u8>,
}

/// A pseudo-user a plugin asks the engine to own.
pub struct Bot {
    pub nick: Vec<u8>,
    pub ident: Vec<u8>,
    pub hostname: Vec<u8>,
    pub gecos: Vec<u8>,
    pub channels: Vec<BotChannel>,
}

/// A channel a bot joins on creation, with the channel modes to create it
/// with and the bot's own member modes there.
pub struct BotChannel {
    pub name: Vec<u8>,
    pub chanmodes: Vec<u8>,
    pub umodes: Vec<u8>,
}

/// One hook registration: the loaded plugin it belongs to, by the identity
/// the host program assigned it, and the event kind it listens for.
#[derive(Clone, Copy, Debug, PartialEq, Eq, Structural)]
pub struct IrcEvent {
    pub plugin_id: usize,
    pub event_type: HookType,
}

/// One firing of a hook, queued for the host program to deliver to the
/// plugin's callable.
pub struct FiredHook {
    pub plugin_id: usize,
    pub data: HookData,
}

/// Field-by-field sameness of two hook records, at the level of their
/// byte contents.
pub open spec fn hook_data_like(a: HookData, b: HookData) -> bool {
    &&& a.hook_type == b.hook_type
    &&& (a.server is Some <==> b.server is Some)
    &&& (a.server matches Some(sa) ==> b.server matches Some(sb) && sa.hostname@
        == sb.hostname@ && sa.description@ == sb.description@ && sa.hops == sb.hops && sa.boot
        == sb.boot && sa.link_time == sb.link_time)
    &&& a.origin@ == b.origin@
    &&& a.target@ == b.target@
    &&& a.message@ == b.message@
    &&& a.argc == b.argc
    &&& a.argv@.len() == b.argv@.len()
    &&& forall|k: int| 0 <= k < a.argv@.len() ==> #[trigger] a.argv@[k]@ == b.argv@[k]@
}

/// A fresh copy of a hook record, byte for byte.
pub fn copy_hook_data(d: &HookData) -> (r: HookData)
    ensures
        hook_data_like(r, *d),
{
    let server: Option<BaseServer> = match &d.server {
        Some(s) => Some(
            BaseServer {
                hostname: bytes_of(s.hostname.as_slice()),
                description: bytes_of(s.description.as_slice()),
                hops: s.hops,
                boot: s.boot,
                link_time: s.link_time,
            },
        ),
        None => None,
    };
    let mut argv: Vec<Vec<u8>> = Vec::new();
    let mut i: usize = 0;
    while i < d.argv.len()
        invariant
            i <= d.argv@.len(),
            argv@.len() == i,
            forall|k: int| 0 <= k < i ==> #[trigger] argv@[k]@ == d.argv@[k]@,
        decreases d.argv@.len() - i,
    {
        argv.push(bytes_of(d.argv[i].as_slice()));
        i += 1;
    }
    HookData {
        hook_type: d.hook_type,
        server,
        origin: bytes_of(d.origin.as_slice()),
        target: bytes_of(d.target.as_slice()),
        message: bytes_of(d.message.as_slice()),
        argc: d.argc,
        argv,
    }
}

} // verus!
