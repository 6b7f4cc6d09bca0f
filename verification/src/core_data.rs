use vstd::prelude::*;

use crate::channel::Channel;
use crate::config::{config_ok, Config};
use crate::net::ConnectionState;
use crate::p10::P10;
use crate::plugin::{hook_data_like, copy_hook_data, FiredHook, HookData, HookType, IrcEvent};
use crate::server::Server;
use crate::user::User;
use crate::utils::{bytes_of, seq_views};

verus! {

/// Anything that names a destination for a text message: a nick for users,
/// a numnick for protocol-level user extensions.
pub trait Target {
    spec fn target_spec(&self) -> Seq<u8>;

    fn get_target(&self) -> (t: Vec<u8>)
        ensures
            t@ == self.target_spec(),
    ;
}

/// The whole state of the link: connection phase, injected clock, the
/// server and user and channel stores, hook registrations, the queue of
/// fired hooks for the host program, and the outbound line buffer.
pub struct NeroData {
    pub state: ConnectionState,
    pub now: u64,
    pub uplink: Option<usize>,
    pub me: usize,
    pub channels: Vec<Channel>,
    pub unbursted_channels: Vec<Vec<u8>>,
    pub servers: Vec<Server>,
    pub users: Vec<User>,
    pub events: Vec<IrcEvent>,
    pub fired_hooks: Vec<FiredHook>,
    pub config: Config,
    pub write_buffer: Vec<Vec<u8>>,
    pub protocol: P10,
}

/// The numnicks of the global user list, in order.
pub open spec fn unicks(s: NeroData) -> Seq<Seq<u8>> {
    s.users@.map_values(|u: User| u.ext.numeric@)
}

/// The owning-server index of each user of the global list.
pub open spec fn uowners(s: NeroData) -> Seq<int> {
    s.users@.map_values(|u: User| u.uplink as int)
}

/// The owned-user numnick list of every server.
pub open spec fn slists(s: NeroData) -> Seq<Seq<Seq<u8>>> {
    s.servers@.map_values(|sv: Server| seq_views(sv.users@))
}

/// The ownership invariant of the user store, over the numnicks `nicks`
/// and owner indices `owners` of the global list and the per-server owned
/// lists `lists`: numnicks are unique, every user's owner exists and lists
/// it, every listed numnick is a global user owned by that server, and no
/// list repeats a numnick.  Together these say each user stands in exactly
/// one server's list.
pub open spec fn owned_at(nicks: Seq<Seq<u8>>, owners: Seq<int>, n: Seq<u8>, j: int) -> bool {
    exists|i: int| 0 <= i < nicks.len() && #[trigger] nicks[i] == n && owners[i] == j
}

pub open spec fn store_wf(nicks: Seq<Seq<u8>>, owners: Seq<int>, lists: Seq<Seq<Seq<u8>>>) -> bool {
    &&& owners.len() == nicks.len()
    &&& forall|i1: int, i2: int|
        0 <= i1 < i2 < nicks.len() ==> #[trigger] nicks[i1] != #[trigger] nicks[i2]
    &&& forall|i: int|
        0 <= i < nicks.len() ==> 0 <= #[trigger] owners[i] < lists.len()
            && lists[owners[i]].contains(nicks[i])
    &&& forall|j: int, k: int|
        0 <= j < lists.len() && 0 <= k < lists[j].len() ==> owned_at(
            nicks,
            owners,
            #[trigger] lists[j][k],
            j,
        )
    &&& forall|j: int, k1: int, k2: int|
        0 <= j < lists.len() && 0 <= k1 < k2 < lists[j].len() ==> #[trigger] lists[j][k1]
            != #[trigger] lists[j][k2]
}

/// A channel stores no mode argument without the matching mode bit.
pub open spec fn channel_args_wf(c: Channel) -> bool {
    &&& c.limit > 0 ==> c.modes & crate::p10::CMODE_LIMIT != 0
    &&& c.key is Some ==> c.modes & crate::p10::CMODE_KEY != 0
    &&& c.ext.upass is Some ==> c.modes & crate::p10::CMODE_UPASS != 0
    &&& c.ext.apass is Some ==> c.modes & crate::p10::CMODE_APASS != 0
}

/// The state invariant the engine maintains across every inbound line.
pub open spec fn wf(s: NeroData) -> bool {
    &&& config_ok(s.config)
    &&& s.me < s.servers@.len()
    &&& (s.uplink matches Some(u) ==> u < s.servers@.len())
    &&& store_wf(unicks(s), uowners(s), slists(s))
    &&& forall|c: int| 0 <= c < s.channels@.len() ==> channel_args_wf(#[trigger] s.channels@[c])
}

/// Every channel member names a user of the global list.
pub open spec fn members_wf(s: NeroData) -> bool {
    forall|c: int, m: int|
        0 <= c < s.channels@.len() && 0 <= m < s.channels@[c].members@.len() ==> unicks(s).contains(
            #[trigger] s.channels@[c].members@[m].user_numeric@,
        )
}

/// Law: under the invariant, a user of the global list stands in exactly
/// one server's user list: its owning server lists it (`store_wf`), at a
/// single position, and any position of any server's list that holds its
/// numnick belongs to that owning server.
pub proof fn lemma_user_owned_once(s: NeroData, i: int, j: int, k: int)
    requires
        wf(s),
        0 <= i < unicks(s).len(),
        0 <= j < slists(s).len(),
        0 <= k < slists(s)[j].len(),
        slists(s)[j][k] == unicks(s)[i],
    ensures
        j == uowners(s)[i],
{
    let nicks = unicks(s);
    let owners = uowners(s);
    let lists = slists(s);
    assert(owned_at(nicks, owners, lists[j][k], j));
    let i2 = choose|i2: int|
        0 <= i2 < nicks.len() && #[trigger] nicks[i2] == lists[j][k] && owners[i2] == j;
    if i2 != i {
        if i < i2 {
            assert(nicks[i] != nicks[i2]);
        } else {
            assert(nicks[i2] != nicks[i]);
        }
    }
}

/// Adding a fresh numnick to the global list and to its owner's list keeps
/// the store invariant.
pub proof fn lemma_store_add(
    nicks: Seq<Seq<u8>>,
    owners: Seq<int>,
    lists: Seq<Seq<Seq<u8>>>,
    n: Seq<u8>,
    j: int,
)
    requires
        store_wf(nicks, owners, lists),
        0 <= j < lists.len(),
        !nicks.contains(n),
    ensures
        store_wf(nicks.push(n), owners.push(j), lists.update(j, lists[j].push(n))),
{
    let nicks2 = nicks.push(n);
    let owners2 = owners.push(j);
    let lists2 = lists.update(j, lists[j].push(n));
    assert forall|i1: int, i2: int| 0 <= i1 < i2 < nicks2.len() implies #[trigger] nicks2[i1]
        != #[trigger] nicks2[i2] by {
        if i2 == nicks.len() {
            assert(nicks.contains(nicks[i1]));
        }
    }
    assert forall|i: int| 0 <= i < nicks2.len() implies 0 <= #[trigger] owners2[i] < lists2.len()
        && lists2[owners2[i]].contains(nicks2[i]) by {
        if i < nicks.len() {
            assert(0 <= owners[i] < lists.len() && lists[owners[i]].contains(nicks[i]));
            let k = choose|k: int|
                0 <= k < lists[owners[i]].len() && #[trigger] lists[owners[i]][k] == nicks[i];
            assert(lists2[owners2[i]][k] == nicks2[i]);
        } else {
            assert(lists2[j][lists[j].len() as int] == n);
        }
    }
    assert forall|j2: int, k: int|
        0 <= j2 < lists2.len() && 0 <= k < lists2[j2].len() implies owned_at(
        nicks2,
        owners2,
        #[trigger] lists2[j2][k],
        j2,
    ) by {
        if j2 == j && k == lists[j].len() {
            assert(nicks2[nicks.len() as int] == lists2[j2][k] && owners2[nicks.len() as int]
                == j2);
        } else {
            assert(lists2[j2][k] == lists[j2][k]);
            assert(owned_at(nicks, owners, lists[j2][k], j2));
            let i = choose|i: int|
                0 <= i < nicks.len() && #[trigger] nicks[i] == lists[j2][k] && owners[i] == j2;
            assert(nicks2[i] == lists2[j2][k] && owners2[i] == j2);
        }
    }
    assert forall|j2: int, k1: int, k2: int|
        0 <= j2 < lists2.len() && 0 <= k1 < k2 < lists2[j2].len() implies #[trigger] lists2[j2][k1]
        != #[trigger] lists2[j2][k2] by {
        if j2 == j && k2 == lists[j].len() {
            assert(lists2[j2][k1] == lists[j][k1]);
            assert(owned_at(nicks, owners, lists[j][k1], j));
            let i = choose|i: int|
                0 <= i < nicks.len() && #[trigger] nicks[i] == lists[j][k1] && owners[i] == j;
            assert(nicks.contains(nicks[i]));
            assert(lists2[j2][k2] == n);
        } else {
            assert(lists2[j2][k1] == lists[j2][k1]);
            assert(lists2[j2][k2] == lists[j2][k2]);
        }
    }
}

/// Removing one user from the global list and from its owner's list keeps
/// the store invariant.
pub proof fn lemma_store_del(
    nicks: Seq<Seq<u8>>,
    owners: Seq<int>,
    lists: Seq<Seq<Seq<u8>>>,
    i: int,
    k: int,
)
    requires
        store_wf(nicks, owners, lists),
        0 <= i < nicks.len(),
        0 <= k < lists[owners[i]].len(),
        lists[owners[i]][k] == nicks[i],
    ensures
        store_wf(
            nicks.remove(i),
            owners.remove(i),
            lists.update(owners[i], lists[owners[i]].remove(k)),
        ),
{
    let j = owners[i];
    let nicks2 = nicks.remove(i);
    let owners2 = owners.remove(i);
    let lists2 = lists.update(j, lists[j].remove(k));
    let ghost back = |x: int| if x < i { x } else { x + 1 };
    assert forall|i1: int, i2: int| 0 <= i1 < i2 < nicks2.len() implies #[trigger] nicks2[i1]
        != #[trigger] nicks2[i2] by {
        assert(nicks2[i1] == nicks[back(i1)]);
        assert(nicks2[i2] == nicks[back(i2)]);
    }
    assert forall|i1: int| 0 <= i1 < nicks2.len() implies 0 <= #[trigger] owners2[i1]
        < lists2.len() && lists2[owners2[i1]].contains(nicks2[i1]) by {
        let o = back(i1);
        assert(nicks2[i1] == nicks[o] && owners2[i1] == owners[o]);
        assert(0 <= owners[o] < lists.len() && lists[owners[o]].contains(nicks[o]));
        let k1 = choose|k1: int|
            0 <= k1 < lists[owners[o]].len() && #[trigger] lists[owners[o]][k1] == nicks[o];
        if owners[o] != j {
            assert(lists2[owners2[i1]][k1] == nicks2[i1]);
        } else {
            // In the owner's list the removed slot `k` held `nicks[i]`,
            // which is not this user's numnick, so `k1 != k`.
            assert(nicks[o] != nicks[i]);
            if k1 < k {
                assert(lists2[j][k1] == nicks2[i1]);
            } else {
                assert(lists2[j][k1 - 1] == lists[j][k1]);
                assert(lists2[j][k1 - 1] == nicks2[i1]);
            }
        }
    }
    assert forall|j2: int, k2: int|
        0 <= j2 < lists2.len() && 0 <= k2 < lists2[j2].len() implies owned_at(
        nicks2,
        owners2,
        #[trigger] lists2[j2][k2],
        j2,
    ) by {
        let kk = if j2 == j && k2 >= k { k2 + 1 } else { k2 };
        assert(lists2[j2][k2] == lists[j2][kk]);
        assert(owned_at(nicks, owners, lists[j2][kk], j2));
        let i1 = choose|i1: int|
            0 <= i1 < nicks.len() && #[trigger] nicks[i1] == lists[j2][kk] && owners[i1] == j2;
        if i1 == i {
            // The removed user's numnick occurred only at slot `k` of its
            // owner's list, and the position mapping never lands on `k`.
            assert(j2 == j);
            assert(kk != k);
            if kk < k {
                assert(lists[j][kk] != lists[j][k]);
            } else {
                assert(lists[j][k] != lists[j][kk]);
            }
            assert(false);
        }
        let fwd = if i1 < i { i1 } else { i1 - 1 };
        assert(nicks2[fwd] == nicks[i1] && owners2[fwd] == owners[i1]);
    }
    assert forall|j2: int, k1: int, k2: int|
        0 <= j2 < lists2.len() && 0 <= k1 < k2 < lists2[j2].len() implies #[trigger] lists2[j2][k1]
        != #[trigger] lists2[j2][k2] by {
        let a = if j2 == j && k1 >= k { k1 + 1 } else { k1 };
        let b = if j2 == j && k2 >= k { k2 + 1 } else { k2 };
        assert(lists2[j2][k1] == lists[j2][a]);
        assert(lists2[j2][k2] == lists[j2][b]);
    }
}

/// The events registered for one hook kind, in registration order.
pub open spec fn matching_events(events: Seq<IrcEvent>, t: HookType) -> Seq<IrcEvent> {
    events.filter(|e: IrcEvent| e.event_type == t)
}

impl NeroData {
    pub fn new(config: Config) -> (r: Self)
        requires
            config_ok(config),
        ensures
            wf(r),
            members_wf(r),
            r.state == ConnectionState::Connecting,
            r.now == 0,
            r.uplink is None,
            r.me == 0,
            r.channels@.len() == 0,
            r.unbursted_channels@.len() == 0,
            r.servers@.len() == 1,
            r.servers@[0].base.hostname@ == config.uplink.hostname@,
            r.servers@[0].base.description@ == config.uplink.description@,
            r.servers@[0].users@.len() == 0,
            r.servers@[0].ext.numeric@.len() == 0,
            r.servers@[0].ext.numeric_accum == 0,
            r.users@.len() == 0,
            r.events@.len() == 0,
            r.fired_hooks@.len() == 0,
            r.config == config,
            r.write_buffer@.len() == 0,
    {
        let me = Server::new(config.uplink.hostname.as_slice(), config.uplink.description.as_slice());
        let mut servers: Vec<Server> = Vec::new();
        servers.push(me);
        let r = Self {
            state: ConnectionState::Connecting,
            now: 0,
            uplink: None,
            me: 0,
            channels: Vec::new(),
            unbursted_channels: Vec::new(),
            servers,
            users: Vec::new(),
            events: Vec::new(),
            fired_hooks: Vec::new(),
            config,
            write_buffer: Vec::new(),
            protocol: P10 { skew: 0 },
        };
        proof {
            assert(seq_views(r.servers@[0].users@) =~= Seq::<Seq<u8>>::empty());
        }
        r
    }

    pub fn add_to_buffer(&mut self, data: &[u8])
        ensures
            *final(self) == (NeroData { write_buffer: final(self).write_buffer, ..*old(self) }),
            final(self).write_buffer@.len() == old(self).write_buffer@.len() + 1,
            final(self).write_buffer@ == old(self).write_buffer@.push(
                final(self).write_buffer@.last(),
            ),
            final(self).write_buffer@.last()@ == data@,
    {
        self.write_buffer.push(bytes_of(data));
    }

    /// Copies the configured server numeric prefix onto the local server,
    /// if it does not carry one yet.
    pub fn setup(&mut self)
        requires
            wf(*old(self)),
        ensures
            wf(*final(self)),
            members_wf(*old(self)) ==> members_wf(*final(self)),
            *final(self) == (NeroData { servers: final(self).servers, ..*old(self) }),
            final(self).me == old(self).me,
            final(self).servers@.len() == old(self).servers@.len(),
            final(self).config == old(self).config,
            final(self).users@ == old(self).users@,
            final(self).channels@ == old(self).channels@,
            old(self).servers@[old(self).me as int].ext.numeric@.len() == 0 ==> final(self).servers@[final(self).me as int].ext.numeric@ == old(self).config.uplink.numeric->Some_0@,
            old(self).servers@[old(self).me as int].ext.numeric@.len() > 0 ==> *final(self) == *old(self),
    {
        let me = self.me;
        if self.servers[me].ext.numeric.len() == 0 {
            let numeric = match &self.config.uplink.numeric {
                Some(n) => bytes_of(n.as_slice()),
                None => Vec::new(),
            };
            let ghost prev = *self;
            self.servers[me].ext.numeric = numeric;
            proof {
                lemma_same_store(prev, *self);
            }
        }
    }

    /// Queues, in registration order, one fired-hook record for every
    /// registered event listening for this record's kind.
    pub fn fire_hook(&mut self, hook_data: &HookData)
        ensures
            *final(self) == (NeroData { fired_hooks: final(self).fired_hooks, ..*old(self) }),
            final(self).fired_hooks@.len() == old(self).fired_hooks@.len() + matching_events(
                old(self).events@,
                hook_data.hook_type,
            ).len(),
            forall|k: int|
                0 <= k < old(self).fired_hooks@.len() ==> final(self).fired_hooks@[k] == old(
                    self,
                ).fired_hooks@[k],
            forall|k: int|
                #![trigger final(self).fired_hooks@[k]]
                old(self).fired_hooks@.len() <= k < final(self).fired_hooks@.len() ==> (
                final(self).fired_hooks@[k].plugin_id == matching_events(
                    old(self).events@,
                    hook_data.hook_type,
                )[k - old(self).fired_hooks@.len()].plugin_id && hook_data_like(
                    final(self).fired_hooks@[k].data,
                    *hook_data,
                )),
    {
        let ghost orig = self.fired_hooks@;
        let n = self.events.len();
        let mut i: usize = 0;
        while i < n
            invariant
                n == self.events@.len(),
                i <= n,
                *self == (NeroData { fired_hooks: self.fired_hooks, ..*old(self) }),
                self.fired_hooks@.len() == orig.len() + matching_events(
                    self.events@.take(i as int),
                    hook_data.hook_type,
                ).len(),
                forall|k: int| 0 <= k < orig.len() ==> self.fired_hooks@[k] == orig[k],
                forall|k: int|
                    #![trigger self.fired_hooks@[k]]
                    orig.len() <= k < self.fired_hooks@.len() ==> (
                    self.fired_hooks@[k].plugin_id == matching_events(
                        self.events@.take(i as int),
                        hook_data.hook_type,
                    )[k - orig.len()].plugin_id && hook_data_like(
                        self.fired_hooks@[k].data,
                        *hook_data,
                    )),
            decreases n - i,
        {
            let ghost prev_take = self.events@.take(i as int);
            let ghost pre_fired = self.fired_hooks@;
            let ev = self.events[i];
            if hook_type_eq(ev.event_type, hook_data.hook_type) {
                let data = copy_hook_data(hook_data);
                self.fired_hooks.push(FiredHook { plugin_id: ev.plugin_id, data });
            }
            i += 1;
            proof {
                reveal(Seq::filter);
                assert(self.events@.take(i as int).drop_last() =~= prev_take);
                assert(self.events@.take(i as int).last() == self.events@[i - 1]);
                let t = hook_data.hook_type;
                let f = matching_events(self.events@.take(i as int), t);
                let fp = matching_events(prev_take, t);
                if ev.event_type == t {
                    assert(f == fp.push(self.events@[i - 1]));
                } else {
                    assert(f == fp);
                }
                assert forall|k: int|
                    #![trigger self.fired_hooks@[k]]
                    orig.len() <= k < self.fired_hooks@.len() implies (
                self.fired_hooks@[k].plugin_id == f[k - orig.len()].plugin_id
                    && hook_data_like(self.fired_hooks@[k].data, *hook_data)) by {
                    if k < orig.len() + fp.len() {
                        assert(self.fired_hooks@[k] == pre_fired[k]);
                        assert(pre_fired[k].plugin_id == fp[k - orig.len()].plugin_id
                            && hook_data_like(pre_fired[k].data, *hook_data));
                        assert(f[k - orig.len()] == fp[k - orig.len()]);
                    } else {
                        assert(k == orig.len() + fp.len());
                        assert(f[k - orig.len()] == self.events@[i - 1]);
                    }
                }
            }
        }
        proof {
            assert(self.events@.take(i as int) =~= self.events@);
        }
    }
}

/// Two states with the same user skeleton, server user lists, and channel
/// list satisfy the same store and member invariants.
pub proof fn lemma_same_store(a: NeroData, b: NeroData)
    requires
        wf(a),
        b.config == a.config,
        b.me == a.me,
        b.uplink == a.uplink,
        b.channels@ == a.channels@,
        b.users@ == a.users@,
        b.servers@.len() == a.servers@.len(),
        forall|j: int|
            0 <= j < a.servers@.len() ==> #[trigger] b.servers@[j].users@ == a.servers@[j].users@,
    ensures
        wf(b),
        members_wf(a) ==> members_wf(b),
{
    assert(unicks(b) =~= unicks(a));
    assert(uowners(b) =~= uowners(a));
    assert(slists(b) =~= slists(a));
}

/// Two states with the same stores, whose channels differ only in fields
/// outside the mode arguments, satisfy the same state invariant.
pub proof fn lemma_wf_channels_cosmetic(a: NeroData, b: NeroData)
    requires
        wf(a),
        b.config == a.config,
        b.me == a.me,
        b.uplink == a.uplink,
        b.users@ == a.users@,
        b.servers@ == a.servers@,
        b.channels@.len() == a.channels@.len(),
        forall|c: int|
            0 <= c < a.channels@.len() ==> (#[trigger] b.channels@[c].modes == a.channels@[c].modes
                && b.channels@[c].limit == a.channels@[c].limit && b.channels@[c].key
                == a.channels@[c].key && b.channels@[c].ext.upass == a.channels@[c].ext.upass
                && b.channels@[c].ext.apass == a.channels@[c].ext.apass),
    ensures
        wf(b),
{
    assert(unicks(b) =~= unicks(a));
    assert(uowners(b) =~= uowners(a));
    assert(slists(b) =~= slists(a));
    assert forall|c: int| 0 <= c < b.channels@.len() implies channel_args_wf(
        #[trigger] b.channels@[c],
    ) by {
        assert(channel_args_wf(a.channels@[c]));
    }
}

/// Member validity carries to a state with the same users and the same
/// member numnicks.
pub proof fn lemma_members_wf_carry(a: NeroData, b: NeroData)
    requires
        members_wf(a),
        b.users@ == a.users@,
        b.channels@.len() == a.channels@.len(),
        forall|c: int|
            0 <= c < a.channels@.len() ==> #[trigger] b.channels@[c].members@.len()
                == a.channels@[c].members@.len(),
        forall|c: int, m: int|
            0 <= c < a.channels@.len() && 0 <= m < a.channels@[c].members@.len()
                ==> #[trigger] b.channels@[c].members@[m].user_numeric@
                == a.channels@[c].members@[m].user_numeric@,
    ensures
        members_wf(b),
{
    assert(unicks(b) =~= unicks(a));
    assert forall|c: int, m: int|
        0 <= c < b.channels@.len() && 0 <= m < b.channels@[c].members@.len() implies unicks(
        b,
    ).contains(#[trigger] b.channels@[c].members@[m].user_numeric@) by {
        assert(b.channels@[c].members@[m].user_numeric@
            == a.channels@[c].members@[m].user_numeric@);
        assert(unicks(a).contains(a.channels@[c].members@[m].user_numeric@));
    }
}

/// Whether two hook kinds are the same.
pub fn hook_type_eq(a: HookType, b: HookType) -> (r: bool)
    ensures
        r <==> a == b,
{
    a == b
}


impl NeroData {
    /// Looks a user up by nick, ASCII-case-insensitively, and hands back a
    /// copy of its protocol-independent part.
    pub fn get_user_by_nick(&self, nick: &[u8]) -> (r: Option<crate::user::BaseUser>)
        ensures
            r is Some <==> crate::p10::find_nick_rec(self.users@, nick@, 0) != -1,
            r matches Some(b) ==> ({
                let u = self.users@[crate::p10::find_nick_rec(self.users@, nick@, 0)];
                b.nick@ == u.base.nick@ && b.ident@ == u.base.ident@ && b.host@ == u.base.host@
                    && b.ip@ == u.base.ip@ && b.gecos@ == u.base.gecos@ && b.modes == u.base.modes
                    && b.account@ == u.base.account@ && b.away_message@ == u.base.away_message@
            }),
    {
        match crate::p10::find_user_nick(&self.users, nick) {
            Some(i) => Some(crate::user::copy_base_user(&self.users[i].base)),
            None => None,
        }
    }

    /// Looks a user up by numnick, byte-exactly, and hands back a copy of
    /// its protocol-independent part.
    pub fn get_user_by_numeric(&self, numeric: &[u8]) -> (r: Option<crate::user::BaseUser>)
        ensures
            r is Some <==> crate::p10::find_user_rec(self.users@, numeric@, 0) != -1,
            r matches Some(b) ==> ({
                let u = self.users@[crate::p10::find_user_rec(self.users@, numeric@, 0)];
                b.nick@ == u.base.nick@ && b.ident@ == u.base.ident@ && b.host@ == u.base.host@
                    && b.ip@ == u.base.ip@ && b.gecos@ == u.base.gecos@ && b.modes == u.base.modes
                    && b.account@ == u.base.account@ && b.away_message@ == u.base.away_message@
            }),
    {
        let proto = self.protocol;
        proto.find_user_by_numeric(&self.users, numeric)
    }

    pub fn get_user_count(&self) -> (r: usize)
        ensures
            r == self.users@.len(),
    {
        self.users.len()
    }

    pub fn get_channel_count(&self) -> (r: usize)
        ensures
            r == self.channels@.len(),
    {
        self.channels.len()
    }

    pub fn get_server_count(&self) -> (r: usize)
        ensures
            r == self.servers@.len(),
    {
        self.servers.len()
    }

    /// Sends a chunked text message from a locally owned user to whatever
    /// the target names.
    pub fn send_textmessage<T: Target>(
        &mut self,
        source: &crate::user::BaseUser,
        target: &T,
        message: &[u8],
        privmsg: bool,
    )
        ensures
            *final(self) == (NeroData { write_buffer: final(self).write_buffer, ..*old(self) }),
            ({
                let si = crate::p10::find_nick_rec(old(self).users@, source.nick@, 0);
                let cmd: u8 = if privmsg {
                    80u8
                } else {
                    79u8
                };
                if si == -1 || old(self).users@[si].ext.numeric@.len() == 0 {
                    final(self).write_buffer@ == old(self).write_buffer@
                } else {
                    let ti = crate::p10::find_nick_rec(old(self).users@, target.target_spec(), 0);
                    let send_target = if ti >= 0 {
                        old(self).users@[ti].ext.numeric@
                    } else {
                        target.target_spec()
                    };
                    crate::p10::chunks_appended(
                        old(self).write_buffer@,
                        final(self).write_buffer@,
                        old(self).users@[si].ext.numeric@,
                        send_target,
                        cmd,
                        message@,
                    )
                }
            }),
    {
        let target_name = target.get_target();
        crate::p10::send_textmessage(
            &self.users,
            &mut self.write_buffer,
            source,
            target_name.as_slice(),
            message,
            privmsg,
        );
    }

    /// Sends a chunked private message from a locally owned user.
    pub fn send_privmsg<T: Target>(
        &mut self,
        source: &crate::user::BaseUser,
        target: &T,
        message: &[u8],
    )
        ensures
            *final(self) == (NeroData { write_buffer: final(self).write_buffer, ..*old(self) }),
            ({
                let si = crate::p10::find_nick_rec(old(self).users@, source.nick@, 0);
                if si == -1 || old(self).users@[si].ext.numeric@.len() == 0 {
                    final(self).write_buffer@ == old(self).write_buffer@
                } else {
                    let ti = crate::p10::find_nick_rec(old(self).users@, target.target_spec(), 0);
                    let send_target = if ti >= 0 {
                        old(self).users@[ti].ext.numeric@
                    } else {
                        target.target_spec()
                    };
                    crate::p10::chunks_appended(
                        old(self).write_buffer@,
                        final(self).write_buffer@,
                        old(self).users@[si].ext.numeric@,
                        send_target,
                        80u8,
                        message@,
                    )
                }
            }),
    {
        self.send_textmessage(source, target, message, true);
    }

    /// Sends a chunked notice from a locally owned user.
    pub fn send_notice<T: Target>(
        &mut self,
        source: &crate::user::BaseUser,
        target: &T,
        message: &[u8],
    )
        ensures
            *final(self) == (NeroData { write_buffer: final(self).write_buffer, ..*old(self) }),
            ({
                let si = crate::p10::find_nick_rec(old(self).users@, source.nick@, 0);
                if si == -1 || old(self).users@[si].ext.numeric@.len() == 0 {
                    final(self).write_buffer@ == old(self).write_buffer@
                } else {
                    let ti = crate::p10::find_nick_rec(old(self).users@, target.target_spec(), 0);
                    let send_target = if ti >= 0 {
                        old(self).users@[ti].ext.numeric@
                    } else {
                        target.target_spec()
                    };
                    crate::p10::chunks_appended(
                        old(self).write_buffer@,
                        final(self).write_buffer@,
                        old(self).users@[si].ext.numeric@,
                        send_target,
                        79u8,
                        message@,
                    )
                }
            }),
    {
        self.send_textmessage(source, target, message, false);
    }

    /// Sends a chunked private message to a target given directly as
    /// bytes.
    pub fn send_privmsg_raw_target(
        &mut self,
        source: &crate::user::BaseUser,
        target: &[u8],
        message: &[u8],
    )
        ensures
            *final(self) == (NeroData { write_buffer: final(self).write_buffer, ..*old(self) }),
            ({
                let si = crate::p10::find_nick_rec(old(self).users@, source.nick@, 0);
                if si == -1 || old(self).users@[si].ext.numeric@.len() == 0 {
                    final(self).write_buffer@ == old(self).write_buffer@
                } else {
                    let ti = crate::p10::find_nick_rec(old(self).users@, target@, 0);
                    let send_target = if ti >= 0 {
                        old(self).users@[ti].ext.numeric@
                    } else {
                        target@
                    };
                    crate::p10::chunks_appended(
                        old(self).write_buffer@,
                        final(self).write_buffer@,
                        old(self).users@[si].ext.numeric@,
                        send_target,
                        80u8,
                        message@,
                    )
                }
            }),
    {
        crate::p10::send_textmessage(
            &self.users,
            &mut self.write_buffer,
            source,
            target,
            message,
            true,
        );
    }
}


} // verus!
