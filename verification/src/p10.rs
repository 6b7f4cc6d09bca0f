use vstd::prelude::*;

use base64::Engine;

use crate::channel::Channel;
use crate::core_data::Target;
use crate::protocol::{ChanExtDefault, MemberExtDefault, ServExtDefault, UserExtDefault};
use crate::user::User;
use crate::utils::bytes_of;

verus! {

/// The P10 protocol engine.  `skew` is a fixed offset added to the clock
/// value the host program injects.
#[derive(Debug, Copy, Clone)]
pub struct P10 {
    pub skew: u64,
}

/// P10-specific part of a channel.
pub struct P10ChannelExt {
    pub delayed_join: bool,
    pub upass: Option<Vec<u8>>,
    pub apass: Option<Vec<u8>>,
}

/// P10-specific part of a channel membership.
pub struct P10MemberExt {
    pub oplevel: u64,
}

/// P10-specific part of a user: its numnick and fake-host data.
pub struct P10UserExt {
    pub numeric: Vec<u8>,
    pub fakeident: Vec<u8>,
    pub fakehost: Vec<u8>,
    pub timestamp: u64,
}

/// A network-wide host ban.
pub struct Gline {
    pub issued: u64,
    pub lastmod: u64,
    pub expires: u64,
    pub lifetime: u64,
    pub issuer: Vec<u8>,
    pub target: Vec<u8>,
    pub reason: Vec<u8>,
}

/// P10-specific part of a server: its two-byte numeric prefix, its
/// G-lines, whether its burst is still open, and the allocator for
/// numnicks of locally owned users.
pub struct P10ServExt {
    pub numeric: Vec<u8>,
    pub glines: Vec<Gline>,
    pub self_burst: bool,
    pub numeric_accum: u64,
}

impl Gline {
    pub fn new(target: &[u8]) -> (r: Self)
        ensures
            r.issued == 0,
            r.lastmod == 0,
            r.expires == 0,
            r.lifetime == 0,
            r.issuer@.len() == 0,
            r.target@ == target@,
            r.reason@.len() == 0,
    {
        Self {
            issued: 0,
            lastmod: 0,
            expires: 0,
            lifetime: 0,
            issuer: Vec::new(),
            target: bytes_of(target),
            reason: Vec::new(),
        }
    }
}

// User mode bits.
pub const UMODE_OPER: u64 = 1;

pub const UMODE_INVISIBLE: u64 = 2;

pub const UMODE_WALLOP: u64 = 4;

pub const UMODE_DEAF: u64 = 8;

pub const UMODE_SERVICE: u64 = 16;

pub const UMODE_GLOBAL: u64 = 32;

pub const UMODE_NOCHAN: u64 = 64;

pub const UMODE_NOIDLE: u64 = 128;

pub const UMODE_HIDDEN_HOST: u64 = 256;

pub const UMODE_STAMPED: u64 = 512;

// Channel mode bits.
pub const CMODE_PRIVATE: u64 = 1;

pub const CMODE_SECRET: u64 = 2;

pub const CMODE_MODERATED: u64 = 4;

pub const CMODE_TOPICLIMIT: u64 = 8;

pub const CMODE_INVITEONLY: u64 = 16;

pub const CMODE_NOPRIVMSGS: u64 = 32;

pub const CMODE_KEY: u64 = 64;

pub const CMODE_BAN: u64 = 128;

pub const CMODE_LIMIT: u64 = 256;

pub const CMODE_DELAYJOINS: u64 = 512;

pub const CMODE_REGONLY: u64 = 1024;

pub const CMODE_NOCOLORS: u64 = 2048;

pub const CMODE_NOCTCPS: u64 = 4096;

pub const CMODE_REGISTERED: u64 = 8192;

pub const CMODE_APASS: u64 = 16384;

pub const CMODE_UPASS: u64 = 32768;

// Channel member mode bits.
pub const MMODE_CHANOP: u64 = 1;

pub const MMODE_VOICE: u64 = 2;

pub const MMODE_HIDDEN: u64 = 4;

impl P10ServExt {
    pub fn new() -> (r: Self)
        ensures
            r.numeric@.len() == 0,
            r.glines@.len() == 0,
            r.self_burst == true,
            r.numeric_accum == 0,
    {
        Self { numeric: Vec::new(), glines: Vec::new(), self_burst: true, numeric_accum: 0 }
    }
}

impl ServExtDefault for P10ServExt {
    fn new() -> Self {
        P10ServExt::new()
    }
}

impl P10UserExt {
    pub fn new() -> (r: Self)
        ensures
            r.numeric@.len() == 0,
            r.fakeident@.len() == 0,
            r.fakehost@.len() == 0,
            r.timestamp == 0,
    {
        Self {
            numeric: Vec::new(),
            fakeident: Vec::new(),
            fakehost: Vec::new(),
            timestamp: 0,
        }
    }
}

impl UserExtDefault for P10UserExt {
    fn new() -> Self {
        P10UserExt::new()
    }
}

impl Target for P10UserExt {
    open spec fn target_spec(&self) -> Seq<u8> {
        self.numeric@
    }

    fn get_target(&self) -> (t: Vec<u8>) {
        bytes_of(self.numeric.as_slice())
    }
}

impl P10ChannelExt {
    pub fn new() -> (r: Self)
        ensures
            r.delayed_join == false,
            r.upass is None,
            r.apass is None,
    {
        Self { delayed_join: false, upass: None, apass: None }
    }
}

impl ChanExtDefault for P10ChannelExt {
    fn new() -> Self {
        P10ChannelExt::new()
    }
}

impl P10MemberExt {
    pub fn new() -> (r: Self)
        ensures
            r.oplevel == 0,
    {
        Self { oplevel: 0 }
    }
}

impl MemberExtDefault for P10MemberExt {
    fn new() -> Self {
        P10MemberExt::new()
    }
}


// --- The wire tokenizer ---

/// The tokens of one wire line, from the point where `argc` tokens have
/// already been taken: spaces separate tokens; once at least one token is
/// out, a token starting with `:` ends the line as one final token holding
/// everything after the colon; at most `maxargs` tokens come out.
pub open spec fn wire_tokens_rec(line: Seq<u8>, argc: int, maxargs: int, irc_colon: bool) -> Seq<
    Seq<u8>,
>
    decreases line.len(),
    via wire_tokens_rec_dec
{
    if argc >= maxargs || line.len() == 0 {
        Seq::empty()
    } else if line[0] == 32 {
        wire_tokens_rec(line.skip(1), argc, maxargs, irc_colon)
    } else if line[0] == 58 && irc_colon && argc > 0 {
        if line.len() > 1 {
            seq![line.skip(1)]
        } else {
            Seq::empty()
        }
    } else {
        let t = crate::utils::take_until_sp(line);
        seq![t] + wire_tokens_rec(line.skip(t.len() as int), argc + 1, maxargs, irc_colon)
    }
}

#[via_fn]
proof fn wire_tokens_rec_dec(line: Seq<u8>, argc: int, maxargs: int, irc_colon: bool) {
    if !(argc >= maxargs || line.len() == 0) && line[0] != 32 && !(line[0] == 58 && irc_colon
        && argc > 0) {
        crate::utils::lemma_take_until_sp(line);
        assert(crate::utils::take_until_sp(line).len() >= 1);
    }
}

pub open spec fn wire_tokens(line: Seq<u8>, maxargs: int, irc_colon: bool) -> Seq<Seq<u8>> {
    wire_tokens_rec(line, 0, maxargs, irc_colon)
}

/// Cuts one wire line into its tokens, honouring the colon rule, with the
/// token count alongside.  No token comes out empty.
pub fn split_line(line: &[u8], irc_colon: bool, argv_size: usize) -> (r: (usize, Vec<Vec<u8>>))
    ensures
        r.0 == r.1@.len(),
        crate::utils::seq_views(r.1@) == wire_tokens(line@, argv_size as int, irc_colon),
        forall|i: int| 0 <= i < r.1@.len() ==> #[trigger] r.1@[i]@.len() > 0,
{
    let mut argv: Vec<Vec<u8>> = Vec::new();
    let mut ii: usize = 0;
    proof {
        assert(line@.skip(0) =~= line@);
        assert(crate::utils::seq_views(argv@) + wire_tokens_rec(
            line@,
            0,
            argv_size as int,
            irc_colon,
        ) =~= wire_tokens_rec(line@, 0, argv_size as int, irc_colon));
    }
    while ii < line.len() && argv.len() < argv_size
        invariant
            ii <= line@.len(),
            argv@.len() <= argv_size,
            wire_tokens(line@, argv_size as int, irc_colon) == crate::utils::seq_views(argv@)
                + wire_tokens_rec(
                line@.skip(ii as int),
                argv@.len() as int,
                argv_size as int,
                irc_colon,
            ),
            forall|i: int| 0 <= i < argv@.len() ==> #[trigger] argv@[i]@.len() > 0,
        decreases line@.len() - ii,
    {
        let c = line[ii];
        if c == 32 {
            proof {
                assert(line@.skip(ii as int).skip(1) =~= line@.skip(ii + 1));
            }
            ii += 1;
        } else if c == 58 && irc_colon && argv.len() > 0 {
            let ghost prev = argv@;
            let ghost rest = line@.skip(ii as int);
            if line.len() > ii + 1 {
                argv.push(bytes_of(vstd::slice::slice_subrange(line, ii + 1, line.len())));
                proof {
                    assert(rest.skip(1) =~= line@.subrange(ii + 1, line@.len() as int));
                    assert(crate::utils::seq_views(argv@) =~= crate::utils::seq_views(prev).push(
                        rest.skip(1),
                    ));
                    assert(crate::utils::seq_views(prev) + seq![rest.skip(1)]
                        =~= crate::utils::seq_views(argv@));
                    assert(line@.skip(line@.len() as int) =~= Seq::<u8>::empty());
                    assert(crate::utils::seq_views(argv@) + wire_tokens_rec(
                        line@.skip(line@.len() as int),
                        argv@.len() as int,
                        argv_size as int,
                        irc_colon,
                    ) =~= crate::utils::seq_views(argv@));
                }
            } else {
                proof {
                    assert(line@.skip(line@.len() as int) =~= Seq::<u8>::empty());
                    assert(crate::utils::seq_views(argv@) + wire_tokens_rec(
                        line@.skip(line@.len() as int),
                        argv@.len() as int,
                        argv_size as int,
                        irc_colon,
                    ) =~= crate::utils::seq_views(argv@));
                }
            }
            ii = line.len();
        } else {
            let jj = ii;
            ii += 1;
            while ii < line.len() && line[ii] != 32
                invariant
                    jj < ii <= line@.len(),
                    forall|k: int| jj <= k < ii ==> #[trigger] line@[k] != 32,
                decreases line@.len() - ii,
            {
                ii += 1;
            }
            let ghost prev = argv@;
            let ghost rest = line@.skip(jj as int);
            argv.push(bytes_of(vstd::slice::slice_subrange(line, jj, ii)));
            proof {
                assert forall|k: int| 0 <= k < ii - jj implies #[trigger] rest[k] != 32 by {
                    assert(rest[k] == line@[jj + k]);
                }
                if ii < line@.len() {
                    assert(rest[ii - jj] == line@[ii as int]);
                }
                crate::utils::lemma_take_until_sp_exact(rest, ii - jj);
                assert(rest.take(ii - jj) =~= line@.subrange(jj as int, ii as int));
                assert(crate::utils::seq_views(argv@) =~= crate::utils::seq_views(prev).push(
                    rest.take(ii - jj),
                ));
                assert(rest.skip(ii - jj) =~= line@.skip(ii as int));
                assert(crate::utils::seq_views(prev) + (seq![rest.take(ii - jj)]
                    + wire_tokens_rec(
                    line@.skip(ii as int),
                    prev.len() as int + 1,
                    argv_size as int,
                    irc_colon,
                )) =~= crate::utils::seq_views(argv@) + wire_tokens_rec(
                    line@.skip(ii as int),
                    argv@.len() as int,
                    argv_size as int,
                    irc_colon,
                ));
            }
        }
    }
    proof {
        if ii >= line@.len() {
            assert(line@.skip(ii as int) =~= Seq::<u8>::empty());
        }
        assert(crate::utils::seq_views(argv@) + Seq::<Seq<u8>>::empty() =~= crate::utils::seq_views(
            argv@,
        ));
    }
    let argc = argv.len();
    (argc, argv)
}

// --- The numeric IP codec ---

/// The value of one standard base-64 symbol; -1 outside the alphabet.
pub open spec fn std_b64_val(c: u8) -> int {
    if 65 <= c <= 90 {
        c - 65
    } else if 97 <= c <= 122 {
        c - 97 + 26
    } else if 48 <= c <= 57 {
        c - 48 + 52
    } else if c == 43 {
        62
    } else if c == 47 {
        63
    } else {
        -1
    }
}

pub open spec fn is_std_b64(c: u8) -> bool {
    std_b64_val(c) >= 0
}

/// The three bytes packed by one quad of standard base-64 symbols.
pub open spec fn std_b64_quad(a: u8, b: u8, c: u8, d: u8) -> Seq<u8> {
    seq![
        (std_b64_val(a) * 4 + std_b64_val(b) / 16) as u8,
        ((std_b64_val(b) % 16) * 16 + std_b64_val(c) / 4) as u8,
        ((std_b64_val(c) % 4) * 64 + std_b64_val(d)) as u8,
    ]
}

/// The bytes written by a full-quad standard base-64 string.
pub open spec fn std_b64_decoded(s: Seq<u8>) -> Seq<u8>
    decreases s.len(),
{
    if s.len() < 4 {
        Seq::empty()
    } else {
        std_b64_quad(s[0], s[1], s[2], s[3]) + std_b64_decoded(s.skip(4))
    }
}

pub proof fn lemma_std_b64_decoded_len(s: Seq<u8>)
    requires
        s.len() % 4 == 0,
    ensures
        std_b64_decoded(s).len() == s.len() / 4 * 3,
    decreases s.len(),
{
    if s.len() >= 4 {
        assert(s.skip(4).len() % 4 == 0);
        lemma_std_b64_decoded_len(s.skip(4));
    }
}

/// Relies on base64's standard-alphabet engine with canonical padding:
/// a non-empty full-quad string of alphabet symbols needs no padding and
/// decodes to the packed sextets, big-endian, three bytes per quad.
#[verifier::external_body]
fn b64_decode_std(input: &Vec<u8>) -> (r: Option<Vec<u8>>)
    ensures
        r is Some <== input@.len() > 0 && input@.len() % 4 == 0 && (forall|i: int|
            0 <= i < input@.len() ==> is_std_b64(#[trigger] input@[i])),
        r matches Some(v) ==> (input@.len() > 0 && input@.len() % 4 == 0 && (forall|i: int|
            0 <= i < input@.len() ==> is_std_b64(#[trigger] input@[i])) ==> v@ == std_b64_decoded(
            input@,
        )),
{
    match base64::engine::general_purpose::STANDARD.decode(input.as_slice()) {
        Ok(v) => Some(v),
        Err(_) => None,
    }
}

/// The numnick alphabet's two extra symbols written as their standard
/// base-64 counterparts.
pub open spec fn ircu_to_std(c: u8) -> u8 {
    if c == 91 {
        43u8
    } else if c == 93 {
        47u8
    } else {
        c
    }
}

/// The dotted-quad text of the address packed in six decoded bytes.
pub open spec fn ip_str_of(d: Seq<u8>) -> Seq<u8> {
    let b0 = ((d[0] % 16) * 16 + d[1] / 16) as u8;
    let b1 = ((d[1] % 16) * 16 + d[2] / 16) as u8;
    let b2 = ((d[2] % 16) * 16 + d[3] / 16) as u8;
    let b3 = ((d[3] % 16) * 16 + d[4] / 16) as u8;
    crate::utils::dec_digits(b0 as int) + seq![46u8] + crate::utils::dec_digits(b1 as int)
        + seq![46u8] + crate::utils::dec_digits(b2 as int) + seq![46u8] + crate::utils::dec_digits(
        b3 as int,
    )
}

/// What the real-ip field of a new-user line decodes to: `_` and anything
/// that is not six symbols of the numnick alphabet give the empty IP; six
/// symbols give the dotted quad of the packed address.
pub open spec fn base64_to_ip(input: Seq<u8>) -> Seq<u8> {
    let t = input.map_values(|c: u8| ircu_to_std(c)) + seq![65u8, 65u8];
    if input == seq![95u8] {
        Seq::empty()
    } else if input.len() == 6 && (forall|i: int| 0 <= i < t.len() ==> is_std_b64(#[trigger] t[i])) {
        ip_str_of(std_b64_decoded(t))
    } else {
        Seq::empty()
    }
}

/// Decodes the real-ip field of a new-user line.
pub fn base64_to_vecu8(input: &[u8]) -> (r: Vec<u8>)
    ensures
        r@ == base64_to_ip(input@),
{
    let ghost tfull = input@.map_values(|c: u8| ircu_to_std(c)) + seq![65u8, 65u8];
    if input.len() == 1 && input[0] == 95 {
        proof {
            assert(input@ =~= seq![95u8]);
        }
        return Vec::new();
    }
    proof {
        if input@ =~= seq![95u8] {
            assert(input@.len() == 1 && input@[0] == 95);
        }
    }
    if input.len() != 6 {
        return Vec::new();
    }
    let mut buffer: Vec<u8> = Vec::new();
    let mut i: usize = 0;
    while i < input.len()
        invariant
            input@.len() == 6,
            i <= 6,
            tfull == input@.map_values(|c: u8| ircu_to_std(c)) + seq![65u8, 65u8],
            buffer@.len() == i,
            forall|k: int| 0 <= k < i ==> #[trigger] buffer@[k] == tfull[k] && is_std_b64(tfull[k]),
        decreases input@.len() - i,
    {
        let c = input[i];
        let t: u8 = if c == 91 {
            43
        } else if c == 93 {
            47
        } else {
            c
        };
        proof {
            assert(tfull[i as int] == ircu_to_std(input@[i as int]));
        }
        let valid = (65 <= t && t <= 90) || (97 <= t && t <= 122) || (48 <= t && t <= 57) || t == 43
            || t == 47;
        proof {
            assert(t == ircu_to_std(input@[i as int]));
            assert(valid <==> is_std_b64(t));
        }
        if !valid {
            proof {
                assert(!is_std_b64(tfull[i as int]));
            }
            return Vec::new();
        }
        buffer.push(t);
        i += 1;
    }
    buffer.push(65);
    buffer.push(65);
    proof {
        assert(buffer@ =~= tfull);
        assert(forall|k: int| 0 <= k < 6 ==> is_std_b64(#[trigger] tfull[k]));
        assert(tfull[6] == 65 && tfull[7] == 65);
        assert(is_std_b64(65u8));
        assert(forall|k: int| 0 <= k < tfull.len() ==> is_std_b64(#[trigger] tfull[k]));
    }
    match b64_decode_std(&buffer) {
        Some(decoded) => {
            proof {
                lemma_std_b64_decoded_len(tfull);
                assert(decoded@.len() == 6);
            }
            let b0: u8 = (decoded[0] % 16) * 16 + decoded[1] / 16;
            let b1: u8 = (decoded[1] % 16) * 16 + decoded[2] / 16;
            let b2: u8 = (decoded[2] % 16) * 16 + decoded[3] / 16;
            let b3: u8 = (decoded[3] % 16) * 16 + decoded[4] / 16;
            let mut out: Vec<u8> = Vec::new();
            let d0 = crate::utils::u64_to_dec(b0 as u64);
            out.extend_from_slice(d0.as_slice());
            out.push(46);
            let d1 = crate::utils::u64_to_dec(b1 as u64);
            out.extend_from_slice(d1.as_slice());
            out.push(46);
            let d2 = crate::utils::u64_to_dec(b2 as u64);
            out.extend_from_slice(d2.as_slice());
            out.push(46);
            let d3 = crate::utils::u64_to_dec(b3 as u64);
            out.extend_from_slice(d3.as_slice());
            proof {
                assert(out@ =~= ip_str_of(decoded@));
            }
            out
        },
        None => {
            proof {
                assert(false);
            }
            Vec::new()
        },
    }
}


// --- Store lookups ---

/// ASCII-folded bytes of a name.
pub open spec fn lower_seq(s: Seq<u8>) -> Seq<u8> {
    s.map_values(|c: u8| crate::utils::ascii_lower(c))
}

/// The first index at or after `i` of a channel whose folded name is the
/// folded `name`; -1 if none.
pub open spec fn find_channel_rec(channels: Seq<crate::channel::Channel>, name: Seq<u8>, i: int) -> int
    decreases channels.len() - i,
{
    if i < 0 || i >= channels.len() {
        -1
    } else if lower_seq(channels[i].name@) == lower_seq(name) {
        i
    } else {
        find_channel_rec(channels, name, i + 1)
    }
}

/// The first index at or after `i` of a server with this exact numeric
/// prefix; -1 if none.
pub open spec fn find_server_rec(servers: Seq<crate::server::Server>, numeric: Seq<u8>, i: int) -> int
    decreases servers.len() - i,
{
    if i < 0 || i >= servers.len() {
        -1
    } else if servers[i].ext.numeric@ == numeric {
        i
    } else {
        find_server_rec(servers, numeric, i + 1)
    }
}

/// The first index at or after `i` of a user with this exact numnick;
/// -1 if none.
pub open spec fn find_user_rec(users: Seq<User>, numeric: Seq<u8>, i: int) -> int
    decreases users.len() - i,
{
    if i < 0 || i >= users.len() {
        -1
    } else if users[i].ext.numeric@ == numeric {
        i
    } else {
        find_user_rec(users, numeric, i + 1)
    }
}

/// The first index at or after `i` of a user whose folded nick is the
/// folded `nick`; -1 if none.
pub open spec fn find_nick_rec(users: Seq<User>, nick: Seq<u8>, i: int) -> int
    decreases users.len() - i,
{
    if i < 0 || i >= users.len() {
        -1
    } else if lower_seq(users[i].base.nick@) == lower_seq(nick) {
        i
    } else {
        find_nick_rec(users, nick, i + 1)
    }
}

/// Looks a channel up by name, ASCII-case-insensitively.
pub fn find_channel(core_data: &crate::core_data::NeroData, name: &[u8]) -> (r: Option<usize>)
    ensures
        r matches Some(ci) ==> ci < core_data.channels@.len() && find_channel_rec(
            core_data.channels@,
            name@,
            0,
        ) == ci as int,
        r is None ==> find_channel_rec(core_data.channels@, name@, 0) == -1,
{
    let lower = crate::utils::u8_slice_to_lower(name);
    let n = core_data.channels.len();
    let mut i: usize = 0;
    while i < n
        invariant
            n == core_data.channels@.len(),
            i <= n,
            lower@ == lower_seq(name@),
            find_channel_rec(core_data.channels@, name@, 0) == find_channel_rec(
                core_data.channels@,
                name@,
                i as int,
            ),
        decreases n - i,
    {
        let cl = crate::utils::u8_slice_to_lower(core_data.channels[i].name.as_slice());
        if crate::utils::bytes_eq(cl.as_slice(), lower.as_slice()) {
            return Some(i);
        }
        i += 1;
    }
    None
}

/// Looks a server up by its two-byte numeric, byte-exactly.
pub fn find_server_numeric(core_data: &crate::core_data::NeroData, numeric: &[u8]) -> (r: Option<
    usize,
>)
    ensures
        r matches Some(j) ==> j < core_data.servers@.len() && find_server_rec(
            core_data.servers@,
            numeric@,
            0,
        ) == j as int,
        r is None ==> find_server_rec(core_data.servers@, numeric@, 0) == -1,
{
    let n = core_data.servers.len();
    let mut i: usize = 0;
    while i < n
        invariant
            n == core_data.servers@.len(),
            i <= n,
            find_server_rec(core_data.servers@, numeric@, 0) == find_server_rec(
                core_data.servers@,
                numeric@,
                i as int,
            ),
        decreases n - i,
    {
        if crate::utils::bytes_eq(core_data.servers[i].ext.numeric.as_slice(), numeric) {
            return Some(i);
        }
        i += 1;
    }
    None
}

/// Looks a user up by numnick, byte-exactly.
pub fn find_user_numeric(core_data: &crate::core_data::NeroData, numeric: &[u8]) -> (r: Option<
    usize,
>)
    ensures
        r matches Some(ui) ==> ui < core_data.users@.len() && find_user_rec(
            core_data.users@,
            numeric@,
            0,
        ) == ui as int,
        r is None ==> find_user_rec(core_data.users@, numeric@, 0) == -1,
{
    let n = core_data.users.len();
    let mut i: usize = 0;
    while i < n
        invariant
            n == core_data.users@.len(),
            i <= n,
            find_user_rec(core_data.users@, numeric@, 0) == find_user_rec(
                core_data.users@,
                numeric@,
                i as int,
            ),
        decreases n - i,
    {
        if crate::utils::bytes_eq(core_data.users[i].ext.numeric.as_slice(), numeric) {
            return Some(i);
        }
        i += 1;
    }
    None
}

/// Looks a user up by nick, ASCII-case-insensitively.
pub fn find_user_nick(users: &Vec<User>, nick: &[u8]) -> (r: Option<usize>)
    ensures
        r matches Some(ui) ==> ui < users@.len() && find_nick_rec(users@, nick@, 0) == ui as int,
        r is None ==> find_nick_rec(users@, nick@, 0) == -1,
{
    let lower = crate::utils::u8_slice_to_lower(nick);
    let n = users.len();
    let mut i: usize = 0;
    while i < n
        invariant
            n == users@.len(),
            i <= n,
            lower@ == lower_seq(nick@),
            find_nick_rec(users@, nick@, 0) == find_nick_rec(users@, nick@, i as int),
        decreases n - i,
    {
        let ul = crate::utils::u8_slice_to_lower(users[i].base.nick.as_slice());
        if crate::utils::bytes_eq(ul.as_slice(), lower.as_slice()) {
            return Some(i);
        }
        i += 1;
    }
    None
}

// --- Line builders ---

/// The configured numeric prefix of the local server.
pub fn p10_get_numeric(core_data: &crate::core_data::NeroData) -> (r: Vec<u8>)
    requires
        crate::config::config_ok(core_data.config),
    ensures
        r@ == core_data.config.uplink.numeric->Some_0@,
{
    match &core_data.config.uplink.numeric {
        Some(n) => bytes_of(n.as_slice()),
        None => Vec::new(),
    }
}

/// The new-user burst line of one locally owned user.
pub open spec fn user_burst_line(numeric: Seq<u8>, now: u64, user: User) -> Seq<u8> {
    numeric + seq![32u8, 78u8, 32u8] + user.base.nick@ + seq![32u8, 49u8, 32u8]
        + crate::utils::dec_digits(now as int) + seq![32u8] + user.base.ident@ + seq![32u8]
        + user.base.host@ + seq![
        32u8,
        43u8,
        105u8,
        111u8,
        107u8,
        32u8,
        95u8,
        32u8,
    ] + user.ext.numeric@ + seq![32u8, 58u8] + user.base.gecos@
}

/// Queues the burst line announcing one locally owned user.
pub fn p10_irc_user(numeric: &[u8], now: u64, user: &User, buffer: &mut Vec<Vec<u8>>)
    ensures
        final(buffer)@.len() == old(buffer)@.len() + 1,
        final(buffer)@ == old(buffer)@.push(final(buffer)@.last()),
        final(buffer)@.last()@ == user_burst_line(numeric@, now, *user),
{
    let mut line: Vec<u8> = Vec::new();
    line.extend_from_slice(numeric);
    line.push(32);
    line.push(78);
    line.push(32);
    line.extend_from_slice(user.base.nick.as_slice());
    line.push(32);
    line.push(49);
    line.push(32);
    let digits = crate::utils::u64_to_dec(now);
    line.extend_from_slice(digits.as_slice());
    line.push(32);
    line.extend_from_slice(user.base.ident.as_slice());
    line.push(32);
    line.extend_from_slice(user.base.host.as_slice());
    line.push(32);
    line.push(43);
    line.push(105);
    line.push(111);
    line.push(107);
    line.push(32);
    line.push(95);
    line.push(32);
    line.extend_from_slice(user.ext.numeric.as_slice());
    line.push(32);
    line.push(58);
    line.extend_from_slice(user.base.gecos.as_slice());
    proof {
        assert(line@ =~= user_burst_line(numeric@, now, *user));
    }
    buffer.push(line);
}

/// Our end-of-burst line.
pub fn p10_irc_eob(core_data: &crate::core_data::NeroData) -> (r: Vec<u8>)
    requires
        crate::config::config_ok(core_data.config),
    ensures
        r@ == core_data.config.uplink.numeric->Some_0@ + seq![32u8, 69u8, 66u8],
{
    let mut line = p10_get_numeric(core_data);
    line.push(32);
    line.push(69);
    line.push(66);
    proof {
        assert(line@ =~= core_data.config.uplink.numeric->Some_0@ + seq![32u8, 69u8, 66u8]);
    }
    line
}

/// Our end-of-burst acknowledgement line.
pub fn p10_irc_eob_ack(core_data: &crate::core_data::NeroData) -> (r: Vec<u8>)
    requires
        crate::config::config_ok(core_data.config),
    ensures
        r@ == core_data.config.uplink.numeric->Some_0@ + seq![32u8, 69u8, 65u8],
{
    let mut line = p10_get_numeric(core_data);
    line.push(32);
    line.push(69);
    line.push(65);
    proof {
        assert(line@ =~= core_data.config.uplink.numeric->Some_0@ + seq![32u8, 69u8, 65u8]);
    }
    line
}

/// The reply to a ping.
pub open spec fn pong_line(numeric: Seq<u8>, who: Seq<u8>, orig_ts: Seq<u8>) -> Seq<u8> {
    numeric + seq![32u8, 90u8, 32u8] + who + seq![32u8] + orig_ts + seq![32u8, 48u8, 32u8]
        + orig_ts
}

pub fn p10_irc_pong_asll(core_data: &crate::core_data::NeroData, who: &[u8], orig_ts: &[u8]) -> (r:
    Vec<u8>)
    requires
        crate::config::config_ok(core_data.config),
    ensures
        r@ == pong_line(core_data.config.uplink.numeric->Some_0@, who@, orig_ts@),
{
    let mut line = p10_get_numeric(core_data);
    line.push(32);
    line.push(90);
    line.push(32);
    line.extend_from_slice(who);
    line.push(32);
    line.extend_from_slice(orig_ts);
    line.push(32);
    line.push(48);
    line.push(32);
    line.extend_from_slice(orig_ts);
    proof {
        assert(line@ =~= pong_line(core_data.config.uplink.numeric->Some_0@, who@, orig_ts@));
    }
    line
}


// --- Outbound text chunking ---

/// The fixed prefix of every chunk of one text message.
pub open spec fn text_prefix(source: Seq<u8>, target: Seq<u8>, cmd: u8) -> Seq<u8> {
    source + seq![32u8, cmd, 32u8] + target + seq![32u8, 58u8]
}

/// How many chunks a message takes: one per started 500 bytes of prefix
/// and payload together.
pub open spec fn chunk_count(total: int) -> int {
    crate::utils::ceil_div(total, 500)
}

/// The payload slice of chunk number `k`: its 500-byte window of the
/// message, clipped to the message's end.
pub open spec fn chunk_slice(message: Seq<u8>, k: int) -> Seq<u8> {
    message.subrange(
        if k * 500 <= message.len() {
            k * 500
        } else {
            message.len() as int
        },
        if (k + 1) * 500 <= message.len() {
            (k + 1) * 500
        } else {
            message.len() as int
        },
    )
}

/// The lines a chunked text message adds to the outbound buffer: one per
/// started 500 bytes of prefix and payload together, each the shared
/// prefix followed by its payload window, so that the payloads
/// concatenate back to the message.
pub open spec fn chunks_appended(
    pre: Seq<Vec<u8>>,
    post: Seq<Vec<u8>>,
    source: Seq<u8>,
    target: Seq<u8>,
    cmd: u8,
    message: Seq<u8>,
) -> bool {
    let prefix = text_prefix(source, target, cmd);
    &&& post.len() == pre.len() + chunk_count(prefix.len() + message.len() as int)
    &&& forall|k: int| 0 <= k < pre.len() ==> post[k] == pre[k]
    &&& forall|k: int|
        pre.len() <= k < post.len() ==> #[trigger] post[k]@ == prefix + chunk_slice(
            message,
            k - pre.len(),
        )
}

/// Queues a text message, split into chunks so that prefix and payload
/// together take one line per started 500 bytes, every line behind the
/// same prefix.
pub fn p10_irc_textmessage(
    buffer: &mut Vec<Vec<u8>>,
    source: &[u8],
    target: &[u8],
    message: &[u8],
    cmd: u8,
)
    ensures
        chunks_appended(old(buffer)@, final(buffer)@, source@, target@, cmd, message@),
{
    let mut prefix: Vec<u8> = Vec::new();
    prefix.extend_from_slice(source);
    prefix.push(32);
    prefix.push(cmd);
    prefix.push(32);
    prefix.extend_from_slice(target);
    prefix.push(32);
    prefix.push(58);
    proof {
        assert(prefix@ =~= text_prefix(source@, target@, cmd));
    }
    let plen = prefix.len();
    let mlen = message.len();
    // ceil((plen + mlen) / 500), computed so that no sum can overflow.
    let prem: usize = plen % 500;
    let mrem: usize = mlen % 500;
    let count: usize = if prem + mrem == 0 {
        plen / 500 + mlen / 500
    } else {
        plen / 500 + mlen / 500 + crate::utils::ceiling_division(prem + mrem, 500)
    };
    proof {
        lemma_chunk_count_split(plen as int, mlen as int);
    }
    let ghost orig = buffer@;
    let mut ii: usize = 0;
    while ii < count
        invariant
            mlen == message@.len(),
            mlen <= usize::MAX,
            count == chunk_count(text_prefix(source@, target@, cmd).len() + message@.len() as int),
            ii <= count,
            buffer@.len() == orig.len() + ii,
            forall|k: int| 0 <= k < orig.len() ==> buffer@[k] == orig[k],
            prefix@ == text_prefix(source@, target@, cmd),
            forall|k: int|
                orig.len() <= k < buffer@.len() ==> #[trigger] buffer@[k]@ == text_prefix(
                    source@,
                    target@,
                    cmd,
                ) + chunk_slice(message@, k - orig.len()),
        decreases count - ii,
    {
        proof {
            lemma_window_bound(ii as int, mlen as int);
            lemma_window_bound(ii + 1, mlen as int);
        }
        let begin: usize = if ii <= mlen / 500 {
            ii * 500
        } else {
            mlen
        };
        let end: usize = if ii + 1 <= mlen / 500 {
            (ii + 1) * 500
        } else {
            mlen
        };
        let mut line: Vec<u8> = Vec::new();
        line.extend_from_slice(prefix.as_slice());
        line.extend_from_slice(vstd::slice::slice_subrange(message, begin, end));
        proof {
            assert(line@ =~= text_prefix(source@, target@, cmd) + chunk_slice(message@, ii as int));
        }
        buffer.push(line);
        ii += 1;
    }
}

/// A chunk window's clipped start: below the message end exactly when the
/// chunk number is at most the message length divided by 500.
proof fn lemma_window_bound(k: int, mlen: int)
    requires
        0 <= k,
        0 <= mlen,
    ensures
        k <= mlen / 500 <==> k * 500 <= mlen,
        k <= mlen / 500 ==> 0 <= k * 500 <= mlen,
{
    vstd::arithmetic::div_mod::lemma_div_multiples_vanish(k, 500);
    if k <= mlen / 500 {
        vstd::arithmetic::mul::lemma_mul_inequality(k, mlen / 500, 500);
        vstd::arithmetic::div_mod::lemma_fundamental_div_mod(mlen, 500);
        vstd::arithmetic::div_mod::lemma_mod_bound(mlen, 500);
        assert((mlen / 500) * 500 == 500 * (mlen / 500)) by (nonlinear_arith);
        assert(k * 500 >= 0) by (nonlinear_arith)
            requires
                k >= 0,
        ;
    }
    if k * 500 <= mlen {
        vstd::arithmetic::div_mod::lemma_div_is_ordered(k * 500, mlen, 500);
        assert((500 * k) / 500 == (k * 500) / 500) by (nonlinear_arith);
    }
}

/// The chunk count of a split total, computed piecewise on the remainders.
proof fn lemma_chunk_count_split(plen: int, mlen: int)
    requires
        plen >= 0,
        mlen >= 0,
        plen + mlen >= 1,
    ensures
        chunk_count(plen + mlen) == plen / 500 + mlen / 500 + (if plen % 500 + mlen % 500 == 0 {
            0int
        } else {
            crate::utils::ceil_div(plen % 500 + mlen % 500, 500)
        }),
{
    let a = plen / 500;
    let b = mlen / 500;
    let r1 = plen % 500;
    let r2 = mlen % 500;
    vstd::arithmetic::div_mod::lemma_fundamental_div_mod(plen, 500);
    vstd::arithmetic::div_mod::lemma_mod_bound(plen, 500);
    vstd::arithmetic::div_mod::lemma_fundamental_div_mod(mlen, 500);
    vstd::arithmetic::div_mod::lemma_mod_bound(mlen, 500);
    assert(plen + mlen == 500 * (a + b) + (r1 + r2)) by (nonlinear_arith)
        requires
            plen == 500 * a + r1,
            mlen == 500 * b + r2,
    ;
    if r1 + r2 == 0 {
        assert(a + b >= 1);
        vstd::arithmetic::div_mod::lemma_hoist_over_denominator(-1, a + b, 500nat);
        assert((-1) / 500 == -1);
        assert(plen + mlen - 1 == -1 + (a + b) * 500);
    } else {
        vstd::arithmetic::div_mod::lemma_hoist_over_denominator(r1 + r2 - 1, a + b, 500nat);
        assert(plen + mlen - 1 == (r1 + r2 - 1) + (a + b) * 500);
    }
}

/// Queues a private message, chunked.
pub fn p10_irc_privmsg(buffer: &mut Vec<Vec<u8>>, source: &[u8], target: &[u8], message: &[u8])
    ensures
        chunks_appended(old(buffer)@, final(buffer)@, source@, target@, 80u8, message@),
{
    p10_irc_textmessage(buffer, source, target, message, 80);
}

/// Queues a notice, chunked.
pub fn p10_irc_notice(buffer: &mut Vec<Vec<u8>>, source: &[u8], target: &[u8], message: &[u8])
    ensures
        chunks_appended(old(buffer)@, final(buffer)@, source@, target@, 79u8, message@),
{
    p10_irc_textmessage(buffer, source, target, message, 79);
}


// --- Lookup characterizations ---

pub proof fn lemma_find_user_rec(users: Seq<User>, numeric: Seq<u8>, i: int)
    requires
        0 <= i <= users.len(),
    ensures
        ({
            let r = find_user_rec(users, numeric, i);
            &&& r == -1 ==> forall|k: int|
                i <= k < users.len() ==> #[trigger] users[k].ext.numeric@ != numeric
            &&& r != -1 ==> i <= r < users.len() && users[r].ext.numeric@ == numeric
        }),
    decreases users.len() - i,
{
    if i < users.len() && users[i].ext.numeric@ != numeric {
        lemma_find_user_rec(users, numeric, i + 1);
    }
}

pub proof fn lemma_find_server_rec(servers: Seq<crate::server::Server>, numeric: Seq<u8>, i: int)
    requires
        0 <= i <= servers.len(),
    ensures
        ({
            let r = find_server_rec(servers, numeric, i);
            &&& r == -1 ==> forall|k: int|
                i <= k < servers.len() ==> #[trigger] servers[k].ext.numeric@ != numeric
            &&& r != -1 ==> i <= r < servers.len() && servers[r].ext.numeric@ == numeric
        }),
    decreases servers.len() - i,
{
    if i < servers.len() && servers[i].ext.numeric@ != numeric {
        lemma_find_server_rec(servers, numeric, i + 1);
    }
}

pub proof fn lemma_find_channel_rec(channels: Seq<crate::channel::Channel>, name: Seq<u8>, i: int)
    requires
        0 <= i <= channels.len(),
    ensures
        ({
            let r = find_channel_rec(channels, name, i);
            &&& r == -1 ==> forall|k: int|
                i <= k < channels.len() ==> lower_seq(#[trigger] channels[k].name@) != lower_seq(
                    name,
                )
            &&& r != -1 ==> i <= r < channels.len() && lower_seq(channels[r].name@) == lower_seq(
                name,
            )
        }),
    decreases channels.len() - i,
{
    if i < channels.len() && lower_seq(channels[i].name@) != lower_seq(name) {
        lemma_find_channel_rec(channels, name, i + 1);
    }
}

pub proof fn lemma_find_nick_rec(users: Seq<User>, nick: Seq<u8>, i: int)
    requires
        0 <= i <= users.len(),
    ensures
        ({
            let r = find_nick_rec(users, nick, i);
            &&& r == -1 ==> forall|k: int|
                i <= k < users.len() ==> lower_seq(#[trigger] users[k].base.nick@) != lower_seq(
                    nick,
                )
            &&& r != -1 ==> i <= r < users.len() && lower_seq(users[r].base.nick@) == lower_seq(
                nick,
            )
        }),
    decreases users.len() - i,
{
    if i < users.len() && lower_seq(users[i].base.nick@) != lower_seq(nick) {
        lemma_find_nick_rec(users, nick, i + 1);
    }
}

// --- User store mutation ---

/// The timestamp a wire field parses to: its decimal value, or 0 when it
/// is not a plain number that fits.
pub open spec fn ts_or_zero(s: Seq<u8>) -> u64 {
    if crate::utils::is_dec_digits(s) && crate::utils::dec_val(s) <= u64::MAX {
        crate::utils::dec_val(s) as u64
    } else {
        0
    }
}

/// Creates a user from the fields of a new-user line and stores it under
/// its owning server.  Refused when the numnick has a bad length, when no
/// owning server is given, and, upholding numnick uniqueness, when the
/// numnick is already taken.
pub fn p10_add_user(
    core_data: &mut crate::core_data::NeroData,
    option_uplink: Option<usize>,
    nick: &[u8],
    ident: &[u8],
    hostname: &[u8],
    modes: &[u8],
    numeric: &[u8],
    gecos: &[u8],
    timestamp: &[u8],
    realip: &[u8],
) -> (r: Result<usize, ()>)
    requires
        crate::core_data::wf(*old(core_data)),
        option_uplink matches Some(j) ==> j < old(core_data).servers@.len(),
    ensures
        crate::core_data::wf(*final(core_data)),
        crate::core_data::members_wf(*old(core_data)) ==> crate::core_data::members_wf(
            *final(core_data),
        ),
        r is Err <==> (numeric@.len() < 3 || numeric@.len() > 5 || option_uplink is None
            || find_user_rec(old(core_data).users@, numeric@, 0) != -1),
        r is Err ==> *final(core_data) == *old(core_data),
        *final(core_data) == (crate::core_data::NeroData {
            users: final(core_data).users,
            servers: final(core_data).servers,
            ..*old(core_data)
        }),
        r matches Ok(ui) ==> ({
            let j = option_uplink->Some_0;
            let u = final(core_data).users@.last();
            &&& ui == old(core_data).users@.len()
            &&& final(core_data).users@ == old(core_data).users@.push(u)
            &&& u.base.nick@ == nick@
            &&& u.base.ident@ == ident@
            &&& u.base.host@ == hostname@
            &&& u.base.ip@ == base64_to_ip(realip@)
            &&& u.base.gecos@ == gecos@
            &&& u.base.modes == apply_user_mode_letters(
                0,
                crate::utils::take_until_sp(modes@),
                true,
            )
            &&& u.ext.numeric@ == numeric@
            &&& u.ext.timestamp == ts_or_zero(timestamp@)
            &&& u.uplink == j
            &&& (!crate::utils::take_until_sp(modes@).contains(114u8) ==> u.base.account@.len()
                == 0)
            &&& (!crate::utils::take_until_sp(modes@).contains(104u8) ==> u.ext.fakeident@.len()
                == 0 && u.ext.fakehost@.len() == 0)
            &&& final(core_data).servers@.len() == old(core_data).servers@.len()
            &&& final(core_data).servers@[j as int].users@ == old(core_data).servers@[j as int].users@.push(final(core_data).servers@[j as int].users@.last())
            &&& final(core_data).servers@[j as int].users@.last()@ == numeric@
            &&& final(core_data).servers@[j as int] == (crate::server::Server {
                users: final(core_data).servers@[j as int].users,
                ..old(core_data).servers@[j as int]
            })
            &&& forall|j2: int|
                0 <= j2 < final(core_data).servers@.len() && j2 != j
                    ==> #[trigger] final(core_data).servers@[j2] == old(core_data).servers@[j2]
            &&& final(core_data).channels@ == old(core_data).channels@
            &&& final(core_data).write_buffer@ == old(core_data).write_buffer@
            &&& final(core_data).fired_hooks@ == old(core_data).fired_hooks@
            &&& final(core_data).state == old(core_data).state
            &&& final(core_data).uplink == old(core_data).uplink
            &&& final(core_data).me == old(core_data).me
            &&& final(core_data).config == old(core_data).config
            &&& final(core_data).unbursted_channels@ == old(core_data).unbursted_channels@
            &&& final(core_data).events@ == old(core_data).events@
        }),
{
    let decimal_ip = base64_to_vecu8(realip);
    if numeric.len() < 3 || numeric.len() > 5 {
        return Err(());
    }
    let uplink: usize = match option_uplink {
        Some(j) => j,
        None => {
            return Err(());
        },
    };
    match find_user_numeric(core_data, numeric) {
        Some(_) => {
            return Err(());
        },
        None => {},
    }
    proof {
        lemma_find_user_rec(core_data.users@, numeric@, 0);
    }
    let mut user_node = User::new(nick, ident, hostname, uplink);
    user_node.base.ip = decimal_ip;
    user_node.base.gecos = bytes_of(gecos);
    user_node.ext.numeric = bytes_of(numeric);
    user_node.ext.timestamp = match crate::utils::parse_u64_bytes(timestamp) {
        Some(v) => v,
        None => 0,
    };
    p10_set_user_modes(&mut user_node, modes);
    let ghost prev = *core_data;
    let ui = core_data.users.len();
    core_data.servers[uplink].users.push(bytes_of(numeric));
    core_data.users.push(user_node);
    proof {
        let nicks = crate::core_data::unicks(prev);
        let owners = crate::core_data::uowners(prev);
        let lists = crate::core_data::slists(prev);
        assert forall|k: int| 0 <= k < nicks.len() implies #[trigger] nicks[k] != numeric@ by {
            assert(prev.users@[k].ext.numeric@ != numeric@);
        }
        assert(!nicks.contains(numeric@));
        lemma_store_add_import(nicks, owners, lists, numeric@, uplink as int);
        assert(crate::core_data::unicks(*core_data) =~= nicks.push(numeric@));
        assert(crate::core_data::uowners(*core_data) =~= owners.push(uplink as int));
        assert(crate::core_data::slists(*core_data) =~~= lists.update(
            uplink as int,
            lists[uplink as int].push(numeric@),
        ));
        if crate::core_data::members_wf(prev) {
            assert forall|c: int, m: int|
                0 <= c < core_data.channels@.len() && 0 <= m
                    < core_data.channels@[c].members@.len() implies crate::core_data::unicks(
                *core_data,
            ).contains(#[trigger] core_data.channels@[c].members@[m].user_numeric@) by {
                assert(prev.channels@[c].members@[m].user_numeric@
                    == core_data.channels@[c].members@[m].user_numeric@);
                let idx = choose|idx: int|
                    0 <= idx < nicks.len() && #[trigger] nicks[idx]
                        == prev.channels@[c].members@[m].user_numeric@;
                assert(crate::core_data::unicks(*core_data)[idx]
                    == core_data.channels@[c].members@[m].user_numeric@);
            }
        }
    }
    Ok(ui)
}

/// `lemma_store_add`, applied here.
proof fn lemma_store_add_import(
    nicks: Seq<Seq<u8>>,
    owners: Seq<int>,
    lists: Seq<Seq<Seq<u8>>>,
    n: Seq<u8>,
    j: int,
)
    requires
        crate::core_data::store_wf(nicks, owners, lists),
        0 <= j < lists.len(),
        !nicks.contains(n),
    ensures
        crate::core_data::store_wf(
            nicks.push(n),
            owners.push(j),
            lists.update(j, lists[j].push(n)),
        ),
{
    crate::core_data::lemma_store_add(nicks, owners, lists, n, j);
}

/// Removes the user with this numnick from the global list and from its
/// owning server's list.  Refused for a numnick of bad length or one that
/// no user carries.
pub fn p10_del_user(core_data: &mut crate::core_data::NeroData, numeric: &[u8]) -> (r: Result<
    (),
    (),
>)
    requires
        crate::core_data::wf(*old(core_data)),
    ensures
        crate::core_data::wf(*final(core_data)),
        r is Err <==> (numeric@.len() < 3 || numeric@.len() > 5 || find_user_rec(
            old(core_data).users@,
            numeric@,
            0,
        ) == -1),
        r is Err ==> *final(core_data) == *old(core_data),
        *final(core_data) == (crate::core_data::NeroData {
            users: final(core_data).users,
            servers: final(core_data).servers,
            ..*old(core_data)
        }),
        r is Ok ==> ({
            let i = find_user_rec(old(core_data).users@, numeric@, 0);
            let j = old(core_data).users@[i].uplink as int;
            &&& final(core_data).users@ == old(core_data).users@.remove(i)
            &&& final(core_data).channels@ == old(core_data).channels@
            &&& final(core_data).write_buffer@ == old(core_data).write_buffer@
            &&& final(core_data).fired_hooks@ == old(core_data).fired_hooks@
            &&& final(core_data).state == old(core_data).state
            &&& final(core_data).servers@.len() == old(core_data).servers@.len()
            &&& final(core_data).servers@ == old(core_data).servers@.update(
                j,
                final(core_data).servers@[j],
            )
            &&& final(core_data).servers@[j] == (crate::server::Server {
                users: final(core_data).servers@[j].users,
                ..old(core_data).servers@[j]
            })
            &&& exists|k: int|
                0 <= k < old(core_data).servers@[j].users@.len()
                    && old(core_data).servers@[j].users@[k]@ == numeric@ && final(core_data).servers@[j].users@ == #[trigger] old(core_data).servers@[j].users@.remove(k)
        }),
{
    if numeric.len() < 3 || numeric.len() > 5 {
        return Err(());
    }
    let idx: usize = match find_user_numeric(core_data, numeric) {
        Some(i) => i,
        None => {
            return Err(());
        },
    };
    proof {
        lemma_find_user_rec(core_data.users@, numeric@, 0);
        assert(crate::core_data::uowners(*core_data)[idx as int] == core_data.users@[idx as int].uplink as int);
        assert(crate::core_data::unicks(*core_data)[idx as int] == core_data.users@[idx as int].ext.numeric@);
        assert(0 <= crate::core_data::uowners(*core_data)[idx as int] < crate::core_data::slists(*core_data).len());
    }
    let j = core_data.users[idx].uplink;
    let ghost prev = *core_data;
    let jlen = core_data.servers[j].users.len();
    let mut k: usize = 0;
    while k < jlen
        invariant
            crate::core_data::wf(prev),
            prev == *core_data,
            prev == *old(core_data),
            find_user_rec(old(core_data).users@, numeric@, 0) == idx as int,
            3 <= numeric@.len() <= 5,
            idx < core_data.users@.len(),
            core_data.users@[idx as int].ext.numeric@ == numeric@,
            j == core_data.users@[idx as int].uplink,
            j < core_data.servers@.len(),
            jlen == core_data.servers@[j as int].users@.len(),
            k <= jlen,
            forall|k2: int|
                0 <= k2 < k ==> #[trigger] core_data.servers@[j as int].users@[k2]@ != numeric@,
        decreases jlen - k,
    {
        if crate::utils::bytes_eq(core_data.servers[j].users[k].as_slice(), numeric) {
            core_data.servers[j].users.remove(k);
            core_data.users.remove(idx);
            proof {
                assert(core_data.servers@ =~= prev.servers@.update(
                    j as int,
                    core_data.servers@[j as int],
                ));
                assert(prev.servers@[j as int].users@[k as int]@ == numeric@);
                let nicks = crate::core_data::unicks(prev);
                let owners = crate::core_data::uowners(prev);
                let lists = crate::core_data::slists(prev);
                assert(lists[j as int][k as int] == numeric@);
                assert(nicks[idx as int] == numeric@);
                crate::core_data::lemma_store_del(nicks, owners, lists, idx as int, k as int);
                assert(crate::core_data::unicks(*core_data) =~= nicks.remove(idx as int));
                assert(crate::core_data::uowners(*core_data) =~= owners.remove(idx as int));
                assert(crate::core_data::slists(*core_data) =~~= lists.update(
                    j as int,
                    lists[j as int].remove(k as int),
                ));
            }
            return Ok(());
        }
        k += 1;
    }
    proof {
        let nicks = crate::core_data::unicks(prev);
        let owners = crate::core_data::uowners(prev);
        let lists = crate::core_data::slists(prev);
        assert(0 <= owners[idx as int] < lists.len() && lists[owners[idx as int]].contains(
            nicks[idx as int],
        ));
        assert forall|kk: int| 0 <= kk < lists[j as int].len() implies #[trigger] lists[j as int][kk]
            != numeric@ by {
            assert(lists[j as int][kk] == core_data.servers@[j as int].users@[kk]@);
        }
        assert(!lists[j as int].contains(numeric@));
        assert(false);
    }
    Err(())
}


// --- Channel store mutation ---

/// Sets a channel's topic, the clock as its time, and, when the setter is
/// known, the setter's nick.
pub fn p10_set_channel_topic(
    now: u64,
    channel: &mut Channel,
    topic_nick: Option<&Vec<u8>>,
    topic: &[u8],
)
    ensures
        final(channel).topic@ == topic@,
        final(channel).topic_time == now,
        topic_nick matches Some(n) ==> final(channel).topic_nick@ == n@,
        topic_nick is None ==> final(channel).topic_nick == old(channel).topic_nick,
        *final(channel) == (Channel {
            topic: final(channel).topic,
            topic_time: final(channel).topic_time,
            topic_nick: final(channel).topic_nick,
            ..*old(channel)
        }),
{
    channel.topic = bytes_of(topic);
    channel.topic_time = now;
    match topic_nick {
        Some(n) => {
            channel.topic_nick = bytes_of(n.as_slice());
        },
        None => {},
    }
}

/// The first index at or after `i` of a ban equal to `ban`; -1 if none.
pub open spec fn find_ban_rec(bans: Seq<Vec<u8>>, ban: Seq<u8>, i: int) -> int
    decreases bans.len() - i,
{
    if i < 0 || i >= bans.len() {
        -1
    } else if bans[i]@ == ban {
        i
    } else {
        find_ban_rec(bans, ban, i + 1)
    }
}

/// Adds a ban to a channel's ban list, or removes its first occurrence.
pub fn p10_ban_channel_user(channel: &mut Channel, adding: bool, ban: &[u8])
    ensures
        *final(channel) == (Channel { bans: final(channel).bans, ..*old(channel) }),
        adding ==> final(channel).bans@ == old(channel).bans@.push(final(channel).bans@.last())
            && final(channel).bans@.last()@ == ban@,
        !adding ==> ({
            let i = find_ban_rec(old(channel).bans@, ban@, 0);
            if i >= 0 {
                final(channel).bans@ == old(channel).bans@.remove(i)
            } else {
                final(channel).bans@ == old(channel).bans@
            }
        }),
{
    if adding {
        let b = bytes_of(ban);
        channel.bans.push(b);
        proof {
            assert(channel.bans@ == old(channel).bans@.push(channel.bans@.last()));
        }
    } else {
        let n = channel.bans.len();
        let mut i: usize = 0;
        while i < n
            invariant
                !adding,
                n == channel.bans@.len(),
                i <= n,
                *channel == *old(channel),
                find_ban_rec(channel.bans@, ban@, 0) == find_ban_rec(channel.bans@, ban@, i as int),
            decreases n - i,
        {
            if crate::utils::bytes_eq(channel.bans[i].as_slice(), ban) {
                channel.bans.remove(i);
                return ;
            }
            i += 1;
        }
    }
}

/// Adds every token of a ban list to a channel's bans.
pub fn p10_set_channel_bans(channel: &mut Channel, ban_list: &[u8])
    ensures
        *final(channel) == (Channel { bans: final(channel).bans, ..*old(channel) }),
        crate::utils::seq_views(final(channel).bans@) == crate::utils::seq_views(
            old(channel).bans@,
        ) + crate::utils::split_sp(ban_list@),
{
    let ghost toks = crate::utils::split_sp(ban_list@);
    let tokens = crate::utils::split_string(ban_list);
    let n = tokens.len();
    let mut i: usize = 0;
    proof {
        assert(crate::utils::seq_views(channel.bans@) + toks.take(0) =~= crate::utils::seq_views(
            channel.bans@,
        ));
    }
    while i < n
        invariant
            n == tokens@.len(),
            i <= n,
            crate::utils::seq_views(tokens@) == toks,
            *channel == (Channel { bans: channel.bans, ..*old(channel) }),
            crate::utils::seq_views(channel.bans@) == crate::utils::seq_views(old(channel).bans@)
                + toks.take(i as int),
        decreases n - i,
    {
        let ghost prev = channel.bans@;
        p10_ban_channel_user(channel, true, tokens[i].as_slice());
        proof {
            assert(crate::utils::seq_views(channel.bans@) =~= crate::utils::seq_views(prev).push(
                toks[i as int],
            ));
            assert(crate::utils::seq_views(old(channel).bans@) + toks.take(i + 1)
                =~= crate::utils::seq_views(old(channel).bans@) + toks.take(i as int) + seq![
                toks[i as int],
            ]);
        }
        i += 1;
    }
    proof {
        assert(toks.take(n as int) =~= toks);
    }
}

/// Finds or creates the channel of a burst line.  An existing channel with
/// a younger creation time takes the older time and loses its topic; a new
/// channel is created with the given modes and bans.
pub fn p10_add_channel(
    core_data: &mut crate::core_data::NeroData,
    name: &[u8],
    created_time: u64,
    mode_list: &[u8],
    ban_list: &[u8],
) -> (r: Option<usize>)
    requires
        crate::core_data::wf(*old(core_data)),
    ensures
        crate::core_data::wf(*final(core_data)),
        crate::core_data::members_wf(*old(core_data)) ==> crate::core_data::members_wf(
            *final(core_data),
        ),
        r is Some,
        r matches Some(c) ==> c < final(core_data).channels@.len(),
        *final(core_data) == (crate::core_data::NeroData {
            channels: final(core_data).channels,
            ..*old(core_data)
        }),
        final(core_data).users@ == old(core_data).users@,
        final(core_data).servers@ == old(core_data).servers@,
        final(core_data).write_buffer@ == old(core_data).write_buffer@,
        final(core_data).fired_hooks@ == old(core_data).fired_hooks@,
        final(core_data).unbursted_channels@ == old(core_data).unbursted_channels@,
        final(core_data).state == old(core_data).state,
        final(core_data).config == old(core_data).config,
        final(core_data).me == old(core_data).me,
        final(core_data).uplink == old(core_data).uplink,
        final(core_data).events@ == old(core_data).events@,
        ({
            let ci = find_channel_rec(old(core_data).channels@, name@, 0);
            if ci >= 0 {
                let oldc = old(core_data).channels@[ci];
                let newc = final(core_data).channels@[ci];
                &&& r == Some(ci as usize)
                &&& final(core_data).channels@.len() == old(core_data).channels@.len()
                &&& forall|c: int|
                    0 <= c < old(core_data).channels@.len() && c != ci
                        ==> #[trigger] final(core_data).channels@[c] == old(core_data).channels@[c]
                &&& (oldc.created > created_time ==> newc == (Channel {
                    created: created_time,
                    topic_time: 0,
                    topic: newc.topic,
                    ..oldc
                }) && newc.topic@.len() == 0)
                &&& (oldc.created <= created_time ==> newc == oldc)
            } else {
                let newc = final(core_data).channels@.last();
                let letters = tail_of(crate::utils::split_sp(mode_list@)[0]);
                let bits = apply_channel_mode_letters(0, letters);
                let cargs = chan_args_apply(
                    letters,
                    crate::utils::split_sp(mode_list@).skip(1),
                    bits,
                    0,
                    None,
                    None,
                    None,
                    false,
                    false,
                    false,
                    false,
                );
                &&& r == Some(old(core_data).channels@.len() as usize)
                &&& final(core_data).channels@ == old(core_data).channels@.push(newc)
                &&& newc.name@ == name@
                &&& newc.created == created_time
                &&& newc.topic@.len() == 0
                &&& newc.topic_time == 0
                &&& newc.members@.len() == 0
                &&& (crate::utils::split_sp(mode_list@).len() > 0 ==> newc.modes == bits
                    && newc.limit == cargs.0 && opt_view(newc.key) == cargs.1 && opt_view(
                    newc.ext.upass,
                ) == cargs.2 && opt_view(newc.ext.apass) == cargs.3)
                &&& (crate::utils::split_sp(mode_list@).len() == 0 ==> newc.modes == 0
                    && newc.limit == 0 && newc.key is None && newc.ext.upass is None
                    && newc.ext.apass is None)
                &&& crate::utils::seq_views(newc.bans@) == crate::utils::split_sp(ban_list@)
            }
        }),
{
    let found = find_channel(core_data, name);
    match found {
        Some(ci) => {
            proof {
                lemma_find_channel_rec(core_data.channels@, name@, 0);
            }
            let ghost prev = *core_data;
            if core_data.channels[ci].created > created_time {
                core_data.channels[ci].created = created_time;
                core_data.channels[ci].topic_time = 0;
                core_data.channels[ci].topic = Vec::new();
            }
            proof {
                assert(crate::core_data::unicks(*core_data) =~= crate::core_data::unicks(prev));
                assert(crate::core_data::uowners(*core_data) =~= crate::core_data::uowners(prev));
                assert(crate::core_data::slists(*core_data) =~~= crate::core_data::slists(prev));
                assert forall|c: int|
                    0 <= c < core_data.channels@.len() implies crate::core_data::channel_args_wf(
                    #[trigger] core_data.channels@[c],
                ) by {
                    assert(crate::core_data::channel_args_wf(prev.channels@[c]));
                }
                if crate::core_data::members_wf(prev) {
                    assert forall|c: int, m: int|
                        0 <= c < core_data.channels@.len() && 0 <= m
                            < core_data.channels@[c].members@.len() implies crate::core_data::unicks(
                        *core_data,
                    ).contains(#[trigger] core_data.channels@[c].members@[m].user_numeric@) by {
                        assert(core_data.channels@[c].members@[m]
                            == prev.channels@[c].members@[m]);
                        assert(crate::core_data::unicks(prev).contains(
                            prev.channels@[c].members@[m].user_numeric@,
                        ));
                    }
                }
            }
            Some(ci)
        },
        None => {
            proof {
                lemma_find_channel_rec(core_data.channels@, name@, 0);
            }
            let mut channel = Channel::new(name, created_time);
            p10_set_channel_modes(&mut channel, mode_list);
            p10_set_channel_bans(&mut channel, ban_list);
            let ghost prev = *core_data;
            let ci = core_data.channels.len();
            core_data.channels.push(channel);
            proof {
                assert(crate::core_data::unicks(*core_data) =~= crate::core_data::unicks(prev));
                assert(crate::core_data::uowners(*core_data) =~= crate::core_data::uowners(prev));
                assert(crate::core_data::slists(*core_data) =~~= crate::core_data::slists(prev));
                assert forall|c: int|
                    0 <= c < core_data.channels@.len() implies crate::core_data::channel_args_wf(
                    #[trigger] core_data.channels@[c],
                ) by {
                    if c < prev.channels@.len() {
                        assert(crate::core_data::channel_args_wf(prev.channels@[c]));
                    }
                }
                if crate::core_data::members_wf(prev) {
                    assert forall|c: int, m: int|
                        0 <= c < core_data.channels@.len() && 0 <= m
                            < core_data.channels@[c].members@.len() implies crate::core_data::unicks(
                        *core_data,
                    ).contains(#[trigger] core_data.channels@[c].members@[m].user_numeric@) by {
                        assert(c < prev.channels@.len());
                        assert(core_data.channels@[c].members@[m]
                            == prev.channels@[c].members@[m]);
                        assert(crate::core_data::unicks(prev).contains(
                            prev.channels@[c].members@[m].user_numeric@,
                        ));
                    }
                }
                assert(crate::utils::seq_views(Seq::<Vec<u8>>::empty()) =~= Seq::<Seq<u8>>::empty());
                assert(crate::utils::seq_views(Seq::<Vec<u8>>::empty()) + crate::utils::split_sp(
                    ban_list@,
                ) =~= crate::utils::split_sp(ban_list@));
            }
            Some(ci)
        },
    }
}

/// Adds the user with this numnick to a channel's member list.  The first
/// member of a channel that is neither registered nor admin-locked is made
/// a channel operator.
pub fn p10_add_channel_member(
    core_data: &mut crate::core_data::NeroData,
    ci: usize,
    userbuf: &[u8],
) -> (r: Result<usize, ()>)
    requires
        crate::core_data::wf(*old(core_data)),
        ci < old(core_data).channels@.len(),
    ensures
        crate::core_data::wf(*final(core_data)),
        crate::core_data::members_wf(*old(core_data)) ==> crate::core_data::members_wf(
            *final(core_data),
        ),
        r is Err <==> find_user_rec(old(core_data).users@, userbuf@, 0) == -1,
        r is Err ==> *final(core_data) == *old(core_data),
        final(core_data).channels@.len() == old(core_data).channels@.len(),
        r matches Ok(mi) ==> mi < final(core_data).channels@[ci as int].members@.len(),
        r matches Ok(mi) ==> ({
            let oldc = old(core_data).channels@[ci as int];
            let m = final(core_data).channels@[ci as int].members@.last();
            &&& mi == oldc.members@.len()
            &&& final(core_data).channels@ == old(core_data).channels@.update(
                ci as int,
                final(core_data).channels@[ci as int],
            )
            &&& final(core_data).channels@[ci as int] == (Channel {
                members: final(core_data).channels@[ci as int].members,
                ..oldc
            })
            &&& final(core_data).channels@[ci as int].members@ == oldc.members@.push(m)
            &&& m.user_numeric@ == userbuf@
            &&& m.ext.oplevel == 0
            &&& m.base.idle == old(core_data).now
            &&& m.base.modes == (if oldc.members@.len() == 0 && oldc.modes & CMODE_REGISTERED == 0
                && oldc.modes & CMODE_APASS == 0 {
                MMODE_CHANOP
            } else {
                0u64
            })
            &&& *final(core_data) == (crate::core_data::NeroData {
                channels: final(core_data).channels,
                ..*old(core_data)
            })
        }),
{
    match find_user_numeric(core_data, userbuf) {
        Some(_) => {},
        None => {
            return Err(());
        },
    }
    proof {
        lemma_find_user_rec(core_data.users@, userbuf@, 0);
    }
    let ghost prev = *core_data;
    let mut member = crate::channel_member::ChannelMember::new(userbuf);
    member.base.idle = core_data.now;
    let first = core_data.channels[ci].members.len() == 0;
    let registered = p10_channel_has_mode(&core_data.channels[ci], CMODE_REGISTERED);
    let apass = p10_channel_has_mode(&core_data.channels[ci], CMODE_APASS);
    if first && !registered && !apass {
        member.base.modes = MMODE_CHANOP;
    }
    let mi = core_data.channels[ci].members.len();
    core_data.channels[ci].members.push(member);
    proof {
        assert(crate::core_data::unicks(*core_data) =~= crate::core_data::unicks(prev));
        assert(crate::core_data::uowners(*core_data) =~= crate::core_data::uowners(prev));
        assert(crate::core_data::slists(*core_data) =~~= crate::core_data::slists(prev));
        assert forall|c: int|
            0 <= c < core_data.channels@.len() implies crate::core_data::channel_args_wf(
            #[trigger] core_data.channels@[c],
        ) by {
            assert(crate::core_data::channel_args_wf(prev.channels@[c]));
        }
        if crate::core_data::members_wf(prev) {
            assert forall|c: int, m: int|
                0 <= c < core_data.channels@.len() && 0 <= m
                    < core_data.channels@[c].members@.len() implies crate::core_data::unicks(
                *core_data,
            ).contains(#[trigger] core_data.channels@[c].members@[m].user_numeric@) by {
                if c == ci && m == prev.channels@[ci as int].members@.len() {
                    assert(core_data.channels@[c].members@[m].user_numeric@ == userbuf@);
                    let wi = find_user_rec(prev.users@, userbuf@, 0);
                    assert(crate::core_data::unicks(prev)[wi] == userbuf@);
                } else {
                    assert(core_data.channels@[c].members@[m] == prev.channels@[c].members@[m]);
                    assert(crate::core_data::unicks(prev).contains(
                        prev.channels@[c].members@[m].user_numeric@,
                    ));
                }
            }
        }
    }
    Ok(mi)
}

/// Allocates the next numnick for a locally owned user: the local server's
/// two-byte prefix and three digits of the running counter.
pub fn get_next_numeric(core_data: &mut crate::core_data::NeroData) -> (r: Vec<u8>)
    requires
        crate::core_data::wf(*old(core_data)),
        old(core_data).servers@[old(core_data).me as int].ext.numeric@.len() > 0,
        old(core_data).servers@[old(core_data).me as int].ext.numeric_accum < u64::MAX,
    ensures
        crate::core_data::wf(*final(core_data)),
        crate::core_data::members_wf(*old(core_data)) ==> crate::core_data::members_wf(
            *final(core_data),
        ),
        r@.len() == old(core_data).servers@[old(core_data).me as int].ext.numeric@.len() + 3,
        r@ == old(core_data).servers@[old(core_data).me as int].ext.numeric@ + r@.subrange(
            r@.len() - 3,
            r@.len() as int,
        ),
        crate::utils::b64_seq_val(r@.subrange(r@.len() - 3, r@.len() as int)) == old(core_data).servers@[old(core_data).me as int].ext.numeric_accum as int % crate::utils::pow64(3),
        forall|j: int|
            r@.len() - 3 <= j < r@.len() ==> crate::utils::is_b64_digit(#[trigger] r@[j]),
        final(core_data).servers@[final(core_data).me as int].ext.numeric_accum == old(core_data).servers@[old(core_data).me as int].ext.numeric_accum + 1,
        final(core_data).users@ == old(core_data).users@,
        final(core_data).channels@ == old(core_data).channels@,
        final(core_data).write_buffer@ == old(core_data).write_buffer@,
        final(core_data).me == old(core_data).me,
        final(core_data).servers@.len() == old(core_data).servers@.len(),
        final(core_data).servers@ == old(core_data).servers@.update(
            old(core_data).me as int,
            final(core_data).servers@[old(core_data).me as int],
        ),
        final(core_data).servers@[old(core_data).me as int] == (crate::server::Server {
            ext: P10ServExt {
                numeric_accum: final(core_data).servers@[old(core_data).me as int].ext.numeric_accum,
                ..old(core_data).servers@[old(core_data).me as int].ext
            },
            ..old(core_data).servers@[old(core_data).me as int]
        }),
        forall|j: int|
            0 <= j < old(core_data).servers@.len() ==> #[trigger] final(core_data).servers@[j].users@
                == old(core_data).servers@[j].users@,
        final(core_data).config == old(core_data).config,
        final(core_data).state == old(core_data).state,
        final(core_data).uplink == old(core_data).uplink,
        final(core_data).fired_hooks@ == old(core_data).fired_hooks@,
        final(core_data).events@ == old(core_data).events@,
        final(core_data).unbursted_channels@ == old(core_data).unbursted_channels@,
        *final(core_data) == (crate::core_data::NeroData {
            servers: final(core_data).servers,
            ..*old(core_data)
        }),
{
    let me = core_data.me;
    let accum = core_data.servers[me].ext.numeric_accum;
    // Only the bottom three digits' worth of the counter matters, and it
    // fits a usize on any machine.
    let accv: usize = (accum % 262144) as usize;
    let suffix = crate::utils::inttobase64(accv, 3);
    let mut r = bytes_of(core_data.servers[me].ext.numeric.as_slice());
    r.extend_from_slice(suffix.as_slice());
    let ghost prev = *core_data;
    core_data.servers[me].ext.numeric_accum = accum + 1;
    proof {
        crate::core_data::lemma_same_store(prev, *core_data);
        assert(r@.subrange(r@.len() - 3, r@.len() as int) =~= suffix@);
        assert(r@ =~= prev.servers@[me as int].ext.numeric@ + suffix@);
        assert(core_data.servers@ =~= prev.servers@.update(
            me as int,
            core_data.servers@[me as int],
        ));
        assert(crate::utils::pow64(3) == 262144) by {
            assert(crate::utils::pow64(0) == 1);
            assert(crate::utils::pow64(1) == 64);
            assert(crate::utils::pow64(2) == 4096);
        }
        vstd::arithmetic::div_mod::lemma_mod_twice(accum as int, 262144);
    }
    r
}

/// Sends a text message from a locally owned user: the source is resolved
/// to its numnick by nick, a target that names a user's nick is rewritten
/// to that user's numnick, and the chunked lines are queued.  Nothing is
/// sent for an unknown source or one without a numnick.
pub fn send_textmessage(
    users: &Vec<User>,
    write_buffer: &mut Vec<Vec<u8>>,
    source: &crate::user::BaseUser,
    target: &[u8],
    message: &[u8],
    is_privmsg: bool,
)
    ensures
        ({
            let si = find_nick_rec(users@, source.nick@, 0);
            let cmd: u8 = if is_privmsg {
                80u8
            } else {
                79u8
            };
            if si == -1 || users@[si].ext.numeric@.len() == 0 {
                final(write_buffer)@ == old(write_buffer)@
            } else {
                let ti = find_nick_rec(users@, target@, 0);
                let send_target = if ti >= 0 {
                    users@[ti].ext.numeric@
                } else {
                    target@
                };
                chunks_appended(
                    old(write_buffer)@,
                    final(write_buffer)@,
                    users@[si].ext.numeric@,
                    send_target,
                    cmd,
                    message@,
                )
            }
        }),
{
    let si = match find_user_nick(users, source.nick.as_slice()) {
        Some(i) => i,
        None => {
            return ;
        },
    };
    let numeric = bytes_of(users[si].ext.numeric.as_slice());
    if numeric.len() == 0 {
        return ;
    }
    let send_target: Vec<u8> = match find_user_nick(users, target) {
        Some(t) => bytes_of(users[t].ext.numeric.as_slice()),
        None => bytes_of(target),
    };
    if is_privmsg {
        p10_irc_privmsg(write_buffer, numeric.as_slice(), send_target.as_slice(), message);
    } else {
        p10_irc_notice(write_buffer, numeric.as_slice(), send_target.as_slice(), message);
    }
}


// --- Burst generation ---

/// Appending a server that owns no users keeps the store invariant.
pub proof fn lemma_store_add_server(
    nicks: Seq<Seq<u8>>,
    owners: Seq<int>,
    lists: Seq<Seq<Seq<u8>>>,
)
    requires
        crate::core_data::store_wf(nicks, owners, lists),
    ensures
        crate::core_data::store_wf(nicks, owners, lists.push(Seq::empty())),
{
    let lists2 = lists.push(Seq::empty());
    assert forall|i: int| 0 <= i < nicks.len() implies 0 <= #[trigger] owners[i] < lists2.len()
        && lists2[owners[i]].contains(nicks[i]) by {
        assert(lists2[owners[i]] == lists[owners[i]]);
    }
    assert forall|j: int, k: int|
        0 <= j < lists2.len() && 0 <= k < lists2[j].len() implies crate::core_data::owned_at(
        nicks,
        owners,
        #[trigger] lists2[j][k],
        j,
    ) by {
        assert(j < lists.len());
        assert(lists2[j][k] == lists[j][k]);
        assert(crate::core_data::owned_at(nicks, owners, lists[j][k], j));
    }
    assert forall|j: int, k1: int, k2: int|
        0 <= j < lists2.len() && 0 <= k1 < k2 < lists2[j].len() implies #[trigger] lists2[j][k1]
        != #[trigger] lists2[j][k2] by {
        assert(j < lists.len());
        assert(lists2[j][k1] == lists[j][k1]);
        assert(lists2[j][k2] == lists[j][k2]);
    }
}

/// Announces every locally owned user to the uplink and lists every known
/// channel for a later channel burst.
pub fn p10_burst_our_users(core_data: &mut crate::core_data::NeroData)
    requires
        crate::core_data::wf(*old(core_data)),
    ensures
        crate::core_data::wf(*final(core_data)),
        crate::core_data::members_wf(*old(core_data)) ==> crate::core_data::members_wf(
            *final(core_data),
        ),
        final(core_data).write_buffer@.len() == old(core_data).write_buffer@.len() + old(core_data).servers@[old(core_data).me as int].users@.len(),
        forall|k: int|
            0 <= k < old(core_data).write_buffer@.len() ==> final(core_data).write_buffer@[k] == old(core_data).write_buffer@[k],
        forall|k: int|
            old(core_data).write_buffer@.len() <= k < final(core_data).write_buffer@.len()
                ==> #[trigger] final(core_data).write_buffer@[k]@ == user_burst_line(
                old(core_data).config.uplink.numeric->Some_0@,
                old(core_data).now,
                old(core_data).users@[find_user_rec(
                    old(core_data).users@,
                    old(core_data).servers@[old(core_data).me as int].users@[k - old(core_data).write_buffer@.len()]@,
                    0,
                )],
            ),
        forall|c: int|
            #![trigger old(core_data).channels@[c]]
            0 <= c < old(core_data).channels@.len() ==> exists|e: int|
                0 <= e < final(core_data).unbursted_channels@.len()
                    && #[trigger] final(core_data).unbursted_channels@[e]@ == lower_seq(
                    old(core_data).channels@[c].name@,
                ),
        forall|e1: int, e2: int|
            0 <= e1 < e2 < final(core_data).unbursted_channels@.len() && e2 >= old(core_data).unbursted_channels@.len() ==> #[trigger] final(core_data).unbursted_channels@[e1]@
                != #[trigger] final(core_data).unbursted_channels@[e2]@,
        final(core_data).users@ == old(core_data).users@,
        final(core_data).servers@ == old(core_data).servers@,
        final(core_data).channels@ == old(core_data).channels@,
        final(core_data).state == old(core_data).state,
        final(core_data).uplink == old(core_data).uplink,
        final(core_data).me == old(core_data).me,
        final(core_data).config == old(core_data).config,
        final(core_data).fired_hooks@ == old(core_data).fired_hooks@,
        final(core_data).events@ == old(core_data).events@,
        final(core_data).now == old(core_data).now,
        *final(core_data) == (crate::core_data::NeroData {
            write_buffer: final(core_data).write_buffer,
            unbursted_channels: final(core_data).unbursted_channels,
            ..*old(core_data)
        }),
{
    let numeric = p10_get_numeric(core_data);
    let now = core_data.now;
    let me = core_data.me;
    let n = core_data.servers[me].users.len();
    let ghost prev = *core_data;
    let mut k: usize = 0;
    while k < n
        invariant
            crate::core_data::wf(prev),
            prev == (crate::core_data::NeroData {
                write_buffer: prev.write_buffer,
                ..*core_data
            }),
            prev == *old(core_data),
            me == prev.me,
            now == prev.now,
            numeric@ == prev.config.uplink.numeric->Some_0@,
            n == prev.servers@[me as int].users@.len(),
            k <= n,
            core_data.write_buffer@.len() == prev.write_buffer@.len() + k,
            forall|i: int|
                0 <= i < prev.write_buffer@.len() ==> core_data.write_buffer@[i]
                    == prev.write_buffer@[i],
            forall|i: int|
                prev.write_buffer@.len() <= i < core_data.write_buffer@.len()
                    ==> #[trigger] core_data.write_buffer@[i]@ == user_burst_line(
                    prev.config.uplink.numeric->Some_0@,
                    prev.now,
                    prev.users@[find_user_rec(
                        prev.users@,
                        prev.servers@[me as int].users@[i - prev.write_buffer@.len()]@,
                        0,
                    )],
                ),
        decreases n - k,
    {
        let num = bytes_of(core_data.servers[me].users[k].as_slice());
        let found = find_user_numeric(core_data, num.as_slice());
        proof {
            lemma_find_user_rec(core_data.users@, num@, 0);
            if found is None {
                assert(crate::core_data::slists(prev)[me as int][k as int] == num@);
                assert(crate::core_data::owned_at(
                    crate::core_data::unicks(prev),
                    crate::core_data::uowners(prev),
                    num@,
                    me as int,
                ));
                let wi = choose|wi: int|
                    0 <= wi < crate::core_data::unicks(prev).len()
                        && #[trigger] crate::core_data::unicks(prev)[wi] == num@
                        && crate::core_data::uowners(prev)[wi] == me as int;
                assert(core_data.users@[wi].ext.numeric@ == num@);
                assert(false);
            }
        }
        let ghost pre_buf = core_data.write_buffer@;
        match found {
            Some(ui) => {
                p10_irc_user(
                    numeric.as_slice(),
                    now,
                    &core_data.users[ui],
                    &mut core_data.write_buffer,
                );
            },
            None => {},
        }
        k += 1;
        proof {
            assert forall|i: int|
                prev.write_buffer@.len() <= i < core_data.write_buffer@.len() implies
                #[trigger] core_data.write_buffer@[i]@ == user_burst_line(
                    prev.config.uplink.numeric->Some_0@,
                    prev.now,
                    prev.users@[find_user_rec(
                        prev.users@,
                        prev.servers@[me as int].users@[i - prev.write_buffer@.len()]@,
                        0,
                    )],
                ) by {
                if i < pre_buf.len() {
                    assert(core_data.write_buffer@[i] == pre_buf[i]);
                } else {
                    assert(i == pre_buf.len());
                    assert(core_data.write_buffer@[i] == core_data.write_buffer@.last());
                }
            }
        }
    }
    let cn = core_data.channels.len();
    let ghost mid = *core_data;
    let mut c: usize = 0;
    while c < cn
        invariant
            cn == core_data.channels@.len(),
            c <= cn,
            *core_data == (crate::core_data::NeroData {
                unbursted_channels: core_data.unbursted_channels,
                ..mid
            }),
            forall|i: int|
                0 <= i < mid.unbursted_channels@.len() ==> core_data.unbursted_channels@[i]
                    == mid.unbursted_channels@[i],
            mid.unbursted_channels@.len() <= core_data.unbursted_channels@.len(),
            forall|c2: int|
                #![trigger core_data.channels@[c2]]
                0 <= c2 < c ==> exists|e: int|
                    0 <= e < core_data.unbursted_channels@.len()
                        && #[trigger] core_data.unbursted_channels@[e]@ == lower_seq(
                        core_data.channels@[c2].name@,
                    ),
            forall|e1: int, e2: int|
                0 <= e1 < e2 < core_data.unbursted_channels@.len() && e2
                    >= mid.unbursted_channels@.len() ==> #[trigger] core_data.unbursted_channels@[e1]@ != #[trigger] core_data.unbursted_channels@[e2]@,
        decreases cn - c,
    {
        let ghost pre_unb = core_data.unbursted_channels@;
        let lowered = crate::utils::u8_slice_to_lower(core_data.channels[c].name.as_slice());
        let ghost glow = lowered@;
        if !crate::utils::vec_contains_bytes(&core_data.unbursted_channels, lowered.as_slice()) {
            core_data.unbursted_channels.push(lowered);
        }
        c += 1;
        proof {
            assert forall|c2: int|
                #![trigger core_data.channels@[c2]]
                0 <= c2 < c implies exists|e: int|
                    0 <= e < core_data.unbursted_channels@.len()
                        && #[trigger] core_data.unbursted_channels@[e]@ == lower_seq(
                        core_data.channels@[c2].name@,
                    ) by {
                if c2 == c - 1 {
                    if core_data.unbursted_channels@.len() > pre_unb.len() {
                        assert(core_data.unbursted_channels@[pre_unb.len() as int]@ == glow);
                    } else {
                        let e = choose|e: int|
                            0 <= e < pre_unb.len() && #[trigger] pre_unb[e]@ == glow;
                        assert(core_data.unbursted_channels@[e]@ == glow);
                    }
                } else {
                    let e = choose|e: int|
                        0 <= e < pre_unb.len() && #[trigger] pre_unb[e]@ == lower_seq(
                            core_data.channels@[c2].name@,
                        );
                    assert(core_data.unbursted_channels@[e]@ == lower_seq(
                        core_data.channels@[c2].name@,
                    ));
                }
            }
        }
    }
    proof {
        crate::core_data::lemma_same_store(prev, *core_data);
    }
}


/// The bytes one member contributes to the burst member list: its
/// numnick, a `:` run of `o` and `v` exactly when its op or voice state
/// differs from the run before it, and the separating comma.
#[verifier::opaque]
pub open spec fn burst_entry(m: crate::channel_member::ChannelMember, was_o: bool, was_v: bool) -> Seq<u8> {
    let is_o = m.base.modes & MMODE_CHANOP > 0;
    let is_v = m.base.modes & MMODE_VOICE > 0;
    let need = (is_o && !was_o) || (is_v && !was_v) || (!is_o && was_o) || (!is_v && was_v);
    m.user_numeric@ + (if need {
        seq![58u8] + (if is_o {
            seq![111u8]
        } else {
            Seq::empty()
        }) + (if is_v {
            seq![118u8]
        } else {
            Seq::empty()
        })
    } else {
        Seq::empty()
    }) + seq![44u8]
}

/// The member-list text of a burst from member `i` on, given the run
/// state the previous member left: each member once, in list order.
#[verifier::opaque]
pub open spec fn burst_members_text(
    ms: Seq<crate::channel_member::ChannelMember>,
    i: int,
    was_o: bool,
    was_v: bool,
) -> Seq<u8>
    decreases ms.len() - i,
{
    if i < 0 || i >= ms.len() {
        Seq::empty()
    } else {
        burst_entry(ms[i], was_o, was_v) + burst_members_text(
            ms,
            i + 1,
            ms[i].base.modes & MMODE_CHANOP > 0,
            ms[i].base.modes & MMODE_VOICE > 0,
        )
    }
}

/// The ban text of a burst from ban `i` on: each ban behind one space.
#[verifier::opaque]
pub open spec fn burst_bans_text(bans: Seq<Vec<u8>>, i: int) -> Seq<u8>
    decreases bans.len() - i,
{
    if i < 0 || i >= bans.len() {
        Seq::empty()
    } else {
        seq![32u8] + bans[i]@ + burst_bans_text(bans, i + 1)
    }
}

/// The member half of a channel burst after each line's fixed prefix:
/// `+`, the mode string, a space, the member entries, with the very last
/// byte (the trailing comma, or that space when there is no member)
/// dropped.
#[verifier::opaque]
pub open spec fn burst_main_text(c: Channel) -> Seq<u8> {
    let head = seq![43u8] + chan_mode_string(
        c.modes,
        c.limit,
        opt_view(c.key),
        opt_view(c.ext.upass),
        opt_view(c.ext.apass),
    ) + seq![32u8];
    (head + burst_members_text(c.members@, 0, false, false)).drop_last()
}

/// What the lines `from..to` of a buffer say after their first `skipn`
/// bytes, concatenated.
#[verifier::opaque]
pub open spec fn stripped_concat(buf: Seq<Vec<u8>>, from: int, to: int, skipn: int) -> Seq<u8>
    decreases to - from,
{
    if from < 0 || from >= to || to > buf.len() {
        Seq::empty()
    } else {
        buf[from]@.skip(skipn) + stripped_concat(buf, from + 1, to, skipn)
    }
}

/// Pushing one more line extends the stripped text of a full range by the
/// line's own stripped text.
pub proof fn lemma_stripped_push(buf: Seq<Vec<u8>>, l: Vec<u8>, from: int, skipn: int)
    requires
        0 <= from <= buf.len(),
    ensures
        stripped_concat(buf.push(l), from, buf.len() as int + 1, skipn) == stripped_concat(
            buf,
            from,
            buf.len() as int,
            skipn,
        ) + l@.skip(skipn),
    decreases buf.len() - from,
{
    reveal(stripped_concat);
    let buf2 = buf.push(l);
    if from == buf.len() {
        assert(stripped_concat(buf2, from, buf.len() as int + 1, skipn) == buf2[from]@.skip(skipn)
            + stripped_concat(buf2, from + 1, buf.len() as int + 1, skipn));
        assert(stripped_concat(buf2, from + 1, buf.len() as int + 1, skipn) =~= Seq::<u8>::empty());
        assert(Seq::<u8>::empty() + l@.skip(skipn) =~= l@.skip(skipn));
        assert(buf2[from]@.skip(skipn) + Seq::<u8>::empty() =~= l@.skip(skipn));
    } else {
        lemma_stripped_push(buf, l, from + 1, skipn);
        assert(buf2[from] == buf[from]);
        assert(stripped_concat(buf, from, buf.len() as int, skipn) == buf[from]@.skip(skipn)
            + stripped_concat(buf, from + 1, buf.len() as int, skipn));
        assert(buf[from]@.skip(skipn) + (stripped_concat(buf, from + 1, buf.len() as int, skipn)
            + l@.skip(skipn)) =~= (buf[from]@.skip(skipn) + stripped_concat(
            buf,
            from + 1,
            buf.len() as int,
            skipn,
        )) + l@.skip(skipn));
    }
}

/// The stripped text of a range is unchanged by pushing lines after it.
pub proof fn lemma_stripped_stable(buf: Seq<Vec<u8>>, l: Vec<u8>, from: int, to: int, skipn: int)
    requires
        0 <= from,
        to <= buf.len(),
    ensures
        stripped_concat(buf.push(l), from, to, skipn) == stripped_concat(buf, from, to, skipn),
    decreases to - from,
{
    reveal(stripped_concat);
    if from < to {
        lemma_stripped_stable(buf, l, from + 1, to, skipn);
        assert(buf.push(l)[from] == buf[from]);
    }
}

/// Writes our burst for one locally known channel: its modes, its members
/// in list order with their op and voice flags, and its bans, cut into
/// lines of at most 500 bytes that all start with the same burst prefix.


/// One member entry moves from the remaining member text to the line.
proof fn lemma_burst_concat_step(
    total: Seq<u8>,
    done_part: Seq<u8>,
    l1: Seq<u8>,
    l2: Seq<u8>,
    ms: Seq<crate::channel_member::ChannelMember>,
    mi: int,
    wo: bool,
    wv: bool,
    blen: int,
)
    requires
        0 <= mi < ms.len(),
        0 <= blen <= l1.len(),
        total == done_part + l1.skip(blen) + burst_members_text(ms, mi, wo, wv),
        l2 == l1 + burst_entry(ms[mi], wo, wv),
    ensures
        total == done_part + l2.skip(blen) + burst_members_text(
            ms,
            mi + 1,
            ms[mi].base.modes & MMODE_CHANOP > 0,
            ms[mi].base.modes & MMODE_VOICE > 0,
        ),
        l2.len() > l1.len(),
        l2.subrange(0, blen) == l1.subrange(0, blen),
{
    reveal(burst_members_text);
    reveal(burst_entry);
    assert(burst_entry(ms[mi], wo, wv).len() >= 1);
    assert(l2.skip(blen) =~= l1.skip(blen) + burst_entry(ms[mi], wo, wv));
    assert(l2.subrange(0, blen) =~= l1.subrange(0, blen));
    assert(burst_members_text(ms, mi, wo, wv) == burst_entry(ms[mi], wo, wv)
        + burst_members_text(
        ms,
        mi + 1,
        ms[mi].base.modes & MMODE_CHANOP > 0,
        ms[mi].base.modes & MMODE_VOICE > 0,
    ));
    assert(done_part + l1.skip(blen) + (burst_entry(ms[mi], wo, wv) + burst_members_text(
        ms,
        mi + 1,
        ms[mi].base.modes & MMODE_CHANOP > 0,
        ms[mi].base.modes & MMODE_VOICE > 0,
    )) =~= done_part + (l1.skip(blen) + burst_entry(ms[mi], wo, wv)) + burst_members_text(
        ms,
        mi + 1,
        ms[mi].base.modes & MMODE_CHANOP > 0,
        ms[mi].base.modes & MMODE_VOICE > 0,
    ));
}

/// Appends one member's burst entry to a line: numnick, the `:` run when
/// the caller's run state asks for one, and the separating comma.
fn burst_append_member(
    line: &mut Vec<u8>,
    m: &crate::channel_member::ChannelMember,
    was_o: bool,
    was_v: bool,
)
    ensures
        final(line)@ == old(line)@ + burst_entry(*m, was_o, was_v),
{
    let is_o = m.base.modes & MMODE_CHANOP > 0;
    let is_v = m.base.modes & MMODE_VOICE > 0;
    let need_colon = (is_o && !was_o) || (is_v && !was_v) || (!is_o && was_o) || (!is_v && was_v);
    line.extend_from_slice(m.user_numeric.as_slice());
    if need_colon {
        line.push(58);
        if is_o {
            line.push(111);
        }
        if is_v {
            line.push(118);
        }
    }
    line.push(44);
    proof {
        reveal(burst_entry);
        assert(line@ =~= old(line)@ + burst_entry(*m, was_o, was_v));
    }
}

#[verifier::rlimit(100)]
#[verifier::spinoff_prover]
pub fn p10_burst_our_channel(
    core_data: &mut crate::core_data::NeroData,
    created: u64,
    ci: usize,
)
    requires
        crate::core_data::wf(*old(core_data)),
        ci < old(core_data).channels@.len(),
    ensures
        crate::core_data::wf(*final(core_data)),
        crate::core_data::members_wf(*old(core_data)) ==> crate::core_data::members_wf(
            *final(core_data),
        ),
        *final(core_data) == (crate::core_data::NeroData {
            write_buffer: final(core_data).write_buffer,
            ..*old(core_data)
        }),
        final(core_data).write_buffer@.len() > old(core_data).write_buffer@.len(),
        forall|k: int|
            0 <= k < old(core_data).write_buffer@.len() ==> final(core_data).write_buffer@[k] == old(core_data).write_buffer@[k],
        ({
            let base = old(core_data).config.uplink.numeric->Some_0@ + seq![32u8, 66u8, 32u8] + old(core_data).channels@[ci as int].name@ + seq![32u8] + crate::utils::dec_digits(created as int)
                + seq![32u8];
            forall|k: int|
                old(core_data).write_buffer@.len() <= k < final(core_data).write_buffer@.len()
                    ==> #[trigger] final(core_data).write_buffer@[k]@.len() >= base.len()
                    && final(core_data).write_buffer@[k]@.subrange(0, base.len() as int) == base
        }),
        ({
            let c = old(core_data).channels@[ci as int];
            let base = old(core_data).config.uplink.numeric->Some_0@ + seq![32u8, 66u8, 32u8]
                + c.name@ + seq![32u8] + crate::utils::dec_digits(created as int) + seq![32u8];
            let head = base + seq![43u8] + chan_mode_string(
                c.modes,
                c.limit,
                opt_view(c.key),
                opt_view(c.ext.upass),
                opt_view(c.ext.apass),
            );
            let firstline = final(core_data).write_buffer@[old(core_data).write_buffer@.len() as int]@;
            firstline.len() >= head.len() && firstline.subrange(0, head.len() as int) == head
        }),
        ({
            let c = old(core_data).channels@[ci as int];
            let base = old(core_data).config.uplink.numeric->Some_0@ + seq![32u8, 66u8, 32u8]
                + c.name@ + seq![32u8] + crate::utils::dec_digits(created as int) + seq![32u8];
            exists|sp: int|
                #![trigger stripped_concat(final(core_data).write_buffer@, old(core_data).write_buffer@.len() as int, sp, base.len() as int)]
                old(core_data).write_buffer@.len() <= sp <= final(core_data).write_buffer@.len()
                    && stripped_concat(
                    final(core_data).write_buffer@,
                    old(core_data).write_buffer@.len() as int,
                    sp,
                    base.len() as int,
                ) == burst_main_text(c) && (c.bans@.len() == 0 ==> sp == final(core_data).write_buffer@.len()) && (c.bans@.len() > 0 ==> (forall|k: int|
                    sp <= k < final(core_data).write_buffer@.len()
                        ==> #[trigger] final(core_data).write_buffer@[k]@.len() >= base.len() + 2
                        && final(core_data).write_buffer@[k]@.subrange(0, base.len() as int + 2) == base
                        + seq![58u8, 37u8]) && stripped_concat(
                    final(core_data).write_buffer@,
                    sp,
                    final(core_data).write_buffer@.len() as int,
                    base.len() as int + 2,
                ) == burst_bans_text(c.bans@, 0))
        }),
{
    let mut base = p10_get_numeric(core_data);
    base.push(32);
    base.push(66);
    base.push(32);
    base.extend_from_slice(core_data.channels[ci].name.as_slice());
    base.push(32);
    let digits = crate::utils::u64_to_dec(created);
    base.extend_from_slice(digits.as_slice());
    base.push(32);
    let ghost gbase = old(core_data).config.uplink.numeric->Some_0@ + seq![32u8, 66u8, 32u8]
        + old(core_data).channels@[ci as int].name@ + seq![32u8] + crate::utils::dec_digits(
        created as int,
    ) + seq![32u8];
    proof {
        assert(base@ =~= gbase);
    }
    let chan_modes = p10_build_channel_mode_string(
        core_data.channels[ci].modes,
        core_data.channels[ci].limit,
        &core_data.channels[ci].key,
        &core_data.channels[ci].ext,
    );
    let mut line = bytes_of(base.as_slice());
    line.push(43);
    line.extend_from_slice(chan_modes.as_slice());
    line.push(32);
    let ghost ghead = gbase + seq![43u8] + chan_mode_string(
        old(core_data).channels@[ci as int].modes,
        old(core_data).channels@[ci as int].limit,
        opt_view(old(core_data).channels@[ci as int].key),
        opt_view(old(core_data).channels@[ci as int].ext.upass),
        opt_view(old(core_data).channels@[ci as int].ext.apass),
    );
    proof {
        assert(line@ =~= ghead + seq![32u8]);
        assert(line@.subrange(0, ghead.len() as int) =~= ghead);
    }
    let ghost prev = *core_data;
    let ghost ms = old(core_data).channels@[ci as int].members@;
    let ghost gbans = old(core_data).channels@[ci as int].bans@;
    let ghost ghd = seq![43u8] + chan_mode_string(
        old(core_data).channels@[ci as int].modes,
        old(core_data).channels@[ci as int].limit,
        opt_view(old(core_data).channels@[ci as int].key),
        opt_view(old(core_data).channels@[ci as int].ext.upass),
        opt_view(old(core_data).channels@[ci as int].ext.apass),
    ) + seq![32u8];
    let ghost blen = base@.len() as int;
    let ghost prevlen = prev.write_buffer@.len() as int;
    let ghost ghead = (base@ + ghd).drop_last();
    proof {
        reveal(stripped_concat);
        assert(line@.skip(blen) =~= ghd);
        assert(line@ =~= base@ + ghd);
        assert(line@.subrange(0, ghead.len() as int) =~= ghead);
        assert(stripped_concat(core_data.write_buffer@, prevlen, prevlen, blen)
            =~= Seq::<u8>::empty());
        assert(ghd + burst_members_text(ms, 0, false, false) =~= stripped_concat(
            core_data.write_buffer@,
            prevlen,
            core_data.write_buffer@.len() as int,
            blen,
        ) + line@.skip(blen) + burst_members_text(ms, 0, false, false));
    }
    let nm = core_data.channels[ci].members.len();
    let mut was_opped = false;
    let mut was_voiced = false;
    let mut mi: usize = 0;
    while mi < nm
        invariant
            prev == (crate::core_data::NeroData {
                write_buffer: prev.write_buffer,
                ..*core_data
            }),
            prev == *old(core_data),
            ci < core_data.channels@.len(),
            ms == core_data.channels@[ci as int].members@,
            nm == ms.len(),
            mi <= nm,
            base@ == gbase,
            blen == base@.len() as int,
            prevlen == prev.write_buffer@.len() as int,
            ghd == seq![43u8] + chan_mode_string(
                prev.channels@[ci as int].modes,
                prev.channels@[ci as int].limit,
                opt_view(prev.channels@[ci as int].key),
                opt_view(prev.channels@[ci as int].ext.upass),
                opt_view(prev.channels@[ci as int].ext.apass),
            ) + seq![32u8],
            line@.len() > base@.len(),
            core_data.write_buffer@.len() > prev.write_buffer@.len() || line@.len() > base@.len()
                + 1,
            line@.subrange(0, base@.len() as int) == base@,
            ghead == (base@ + ghd).drop_last(),
            core_data.write_buffer@.len() > prev.write_buffer@.len() ==> ({
                let firstline = core_data.write_buffer@[prev.write_buffer@.len() as int]@;
                firstline.len() >= ghead.len() && firstline.subrange(0, ghead.len() as int)
                    == ghead
            }),
            core_data.write_buffer@.len() == prev.write_buffer@.len() ==> line@.len() >= ghead.len()
                + 1 && line@.subrange(0, ghead.len() as int) == ghead,
            core_data.write_buffer@.len() >= prev.write_buffer@.len(),
            forall|k: int|
                0 <= k < prev.write_buffer@.len() ==> core_data.write_buffer@[k]
                    == prev.write_buffer@[k],
            forall|k: int|
                prev.write_buffer@.len() <= k < core_data.write_buffer@.len()
                    ==> #[trigger] core_data.write_buffer@[k]@.len() >= base@.len()
                    && core_data.write_buffer@[k]@.subrange(0, base@.len() as int) == base@,
            ghd + burst_members_text(ms, 0, false, false) == stripped_concat(
                core_data.write_buffer@,
                prevlen,
                core_data.write_buffer@.len() as int,
                blen,
            ) + line@.skip(blen) + burst_members_text(ms, mi as int, was_opped, was_voiced),
        decreases nm - mi,
    {
        let s_wo = was_opped;
        let s_wv = was_voiced;
        let user_len = core_data.channels[ci].members[mi].user_numeric.len();
        let m_modes = core_data.channels[ci].members[mi].base.modes;
        let mut need_colon = false;
        let mut oplen: usize = 0;
        if m_modes & MMODE_CHANOP > 0 && !was_opped {
            need_colon = true;
            was_opped = true;
            oplen += 1;
        }
        if m_modes & MMODE_VOICE > 0 && !was_voiced {
            need_colon = true;
            was_voiced = true;
            oplen += 1;
        }
        if m_modes & MMODE_CHANOP == 0 && was_opped {
            need_colon = true;
            was_opped = false;
        }
        if m_modes & MMODE_VOICE == 0 && was_voiced {
            need_colon = true;
            was_voiced = false;
        }
        if need_colon {
            oplen += 1;
        }
        proof {
            assert(was_opped == (ms[mi as int].base.modes & MMODE_CHANOP > 0));
            assert(was_voiced == (ms[mi as int].base.modes & MMODE_VOICE > 0));
        }
        if line.len() > 500 || user_len > 500 || line.len() + user_len + oplen + 1 >= 500 {
            let ghost pre_buf = core_data.write_buffer@;
            let ghost plv = line;
            core_data.write_buffer.push(line);
            line = bytes_of(base.as_slice());
            proof {
                lemma_stripped_push(pre_buf, plv, prevlen, blen);
                assert(core_data.write_buffer@ == pre_buf.push(plv));
                assert(line@.subrange(0, base@.len() as int) =~= base@);
                assert(line@.skip(blen) =~= Seq::<u8>::empty());
            }
        }
        let ghost before_entry = line@;
        burst_append_member(
            &mut line,
            &core_data.channels[ci].members[mi],
            s_wo,
            s_wv,
        );
        proof {
            lemma_burst_concat_step(
                ghd + burst_members_text(ms, 0, false, false),
                stripped_concat(
                    core_data.write_buffer@,
                    prevlen,
                    core_data.write_buffer@.len() as int,
                    blen,
                ),
                before_entry,
                line@,
                ms,
                mi as int,
                s_wo,
                s_wv,
                blen,
            );
        }
        mi += 1;
    }
    proof {
        reveal(burst_members_text);
        assert(burst_members_text(ms, nm as int, was_opped, was_voiced)
            =~= Seq::<u8>::empty());
    }
    let ghost gmain = (ghd + burst_members_text(ms, 0, false, false)).drop_last();
    if line.len() > base.len() {
        let ghost pre_pop = line@;
        let _popped = line.pop();
        proof {
            assert(line@.subrange(0, base@.len() as int) =~= base@);
            if core_data.write_buffer@.len() == prev.write_buffer@.len() {
                assert(line@.len() >= ghead.len());
                assert(line@.subrange(0, ghead.len() as int) =~= ghead);
            }
            assert(line@.skip(blen) =~= pre_pop.skip(blen).drop_last());
            assert((stripped_concat(
                core_data.write_buffer@,
                prevlen,
                core_data.write_buffer@.len() as int,
                blen,
            ) + pre_pop.skip(blen)).drop_last() =~= stripped_concat(
                core_data.write_buffer@,
                prevlen,
                core_data.write_buffer@.len() as int,
                blen,
            ) + pre_pop.skip(blen).drop_last());
        }
    }
    proof {
        assert(stripped_concat(
            core_data.write_buffer@,
            prevlen,
            core_data.write_buffer@.len() as int,
            blen,
        ) + line@.skip(blen) == gmain);
    }
    let ghost mut gsp: int = 0;
    let nb = core_data.channels[ci].bans.len();
    if nb > 0 {
        if line.len() > base.len() {
            let ghost pre_buf = core_data.write_buffer@;
            let ghost plv = line;
            core_data.write_buffer.push(line);
            line = bytes_of(base.as_slice());
            proof {
                lemma_stripped_push(pre_buf, plv, prevlen, blen);
                assert(core_data.write_buffer@ == pre_buf.push(plv));
                assert(line@.subrange(0, base@.len() as int) =~= base@);
                assert(line@.skip(blen) =~= Seq::<u8>::empty());
                if pre_buf.len() == prevlen {
                    assert(core_data.write_buffer@[prevlen]@ == plv@);
                }
                assert(core_data.write_buffer@.len() > prevlen);
                assert(core_data.write_buffer@[prevlen]@.len() >= ghead.len()
                    && core_data.write_buffer@[prevlen]@.subrange(0, ghead.len() as int) == ghead);
            }
        }
        proof {
            gsp = core_data.write_buffer@.len() as int;
            assert(stripped_concat(core_data.write_buffer@, prevlen, gsp, blen) + line@.skip(blen)
                == gmain);
            assert(line@.skip(blen) =~= Seq::<u8>::empty());
            assert(stripped_concat(core_data.write_buffer@, prevlen, gsp, blen) + Seq::<u8>::empty()
                =~= stripped_concat(core_data.write_buffer@, prevlen, gsp, blen));
        }
        line.push(58);
        line.push(37);
        proof {
            reveal(stripped_concat);
            assert(line@.subrange(0, base@.len() as int) =~= base@);
            assert(line@.subrange(0, blen + 2) =~= base@ + seq![58u8, 37u8]);
            assert(line@.skip(blen + 2) =~= Seq::<u8>::empty());
            assert(stripped_concat(core_data.write_buffer@, gsp, gsp, blen + 2)
                =~= Seq::<u8>::empty());
        }
        let mut bi: usize = 0;
        while bi < nb
            invariant
                prev == (crate::core_data::NeroData {
                    write_buffer: prev.write_buffer,
                    ..*core_data
                }),
                prev == *old(core_data),
                ci < core_data.channels@.len(),
                gbans == core_data.channels@[ci as int].bans@,
                nb == gbans.len(),
                bi <= nb,
                base@ == gbase,
                blen == base@.len() as int,
                prevlen == prev.write_buffer@.len() as int,
                prevlen <= gsp <= core_data.write_buffer@.len(),
                core_data.write_buffer@.len() > prevlen,
                ghead == (base@ + ghd).drop_last(),
                core_data.write_buffer@[prevlen]@.len() >= ghead.len()
                    && core_data.write_buffer@[prevlen]@.subrange(0, ghead.len() as int) == ghead,
                stripped_concat(core_data.write_buffer@, prevlen, gsp, blen) == gmain,
                line@.len() >= base@.len() + 2,
                line@.subrange(0, base@.len() as int) == base@,
                line@.subrange(0, blen + 2) == base@ + seq![58u8, 37u8],
                core_data.write_buffer@.len() >= prev.write_buffer@.len(),
                forall|k: int|
                    0 <= k < prev.write_buffer@.len() ==> core_data.write_buffer@[k]
                        == prev.write_buffer@[k],
                forall|k: int|
                    prev.write_buffer@.len() <= k < core_data.write_buffer@.len()
                        ==> #[trigger] core_data.write_buffer@[k]@.len() >= base@.len()
                        && core_data.write_buffer@[k]@.subrange(0, base@.len() as int) == base@,
                forall|k: int|
                    gsp <= k < core_data.write_buffer@.len()
                        ==> #[trigger] core_data.write_buffer@[k]@.len() >= blen + 2
                        && core_data.write_buffer@[k]@.subrange(0, blen + 2) == base@ + seq![
                        58u8,
                        37u8,
                    ],
                burst_bans_text(gbans, 0) == stripped_concat(
                    core_data.write_buffer@,
                    gsp,
                    core_data.write_buffer@.len() as int,
                    blen + 2,
                ) + line@.skip(blen + 2) + burst_bans_text(gbans, bi as int),
            decreases nb - bi,
        {
            let ban_len = core_data.channels[ci].bans[bi].len();
            if line.len() > 500 || ban_len > 500 || line.len() + ban_len + 2 >= 500 {
                let ghost pre_buf = core_data.write_buffer@;
                let ghost plv = line;
                core_data.write_buffer.push(line);
                line = bytes_of(base.as_slice());
                line.push(58);
                line.push(37);
                proof {
                    lemma_stripped_push(pre_buf, plv, gsp, blen + 2);
                    lemma_stripped_stable(pre_buf, plv, prevlen, gsp, blen);
                    assert(core_data.write_buffer@ == pre_buf.push(plv));
                    assert(line@.subrange(0, base@.len() as int) =~= base@);
                    assert(line@.subrange(0, blen + 2) =~= base@ + seq![58u8, 37u8]);
                    assert(line@.skip(blen + 2) =~= Seq::<u8>::empty());
                }
            }
            let ghost before_ban = line@;
            line.push(32);
            line.extend_from_slice(core_data.channels[ci].bans[bi].as_slice());
            proof {
                reveal(burst_bans_text);
                assert(line@.subrange(0, base@.len() as int) =~= base@);
                assert(line@.subrange(0, blen + 2) =~= base@ + seq![58u8, 37u8]);
                assert(line@.skip(blen + 2) =~= before_ban.skip(blen + 2) + (seq![32u8]
                    + gbans[bi as int]@));
                assert(burst_bans_text(gbans, bi as int) == seq![32u8] + gbans[bi as int]@
                    + burst_bans_text(gbans, bi + 1));
            }
            bi += 1;
        }
        proof {
            reveal(burst_bans_text);
            assert(burst_bans_text(gbans, nb as int) =~= Seq::<u8>::empty());
        }
    } else {
        proof {
            gsp = core_data.write_buffer@.len() as int + (if line@.len() != base@.len() {
                1int
            } else {
                0int
            });
        }
    }
    if line.len() != base.len() {
        let ghost pre_buf = core_data.write_buffer@;
        let ghost plv = line;
        core_data.write_buffer.push(line);
        proof {
            assert(core_data.write_buffer@ == pre_buf.push(plv));
            if pre_buf.len() == prevlen {
                assert(core_data.write_buffer@[prevlen]@ == plv@);
            }
            assert(core_data.write_buffer@[prevlen]@.len() >= ghead.len()
                && core_data.write_buffer@[prevlen]@.subrange(0, ghead.len() as int) == ghead);
            lemma_stripped_push(pre_buf, plv, prevlen, blen);
            if gbans.len() > 0 {
                lemma_stripped_push(pre_buf, plv, gsp, blen + 2);
                lemma_stripped_stable(pre_buf, plv, prevlen, gsp, blen);
                assert forall|k: int|
                    gsp <= k < core_data.write_buffer@.len() implies
                    #[trigger] core_data.write_buffer@[k]@.len() >= blen + 2
                    && core_data.write_buffer@[k]@.subrange(0, blen + 2) == base@ + seq![
                    58u8,
                    37u8,
                ] by {
                    if k < pre_buf.len() {
                        assert(core_data.write_buffer@[k] == pre_buf[k]);
                    } else {
                        assert(core_data.write_buffer@[k] == plv);
                    }
                }
            }
        }
    }
    proof {
        reveal(burst_main_text);
        crate::core_data::lemma_same_store(prev, *core_data);
        assert(ghd + burst_members_text(ms, 0, false, false) == base@.skip(blen) + ghd
            + burst_members_text(ms, 0, false, false)) by {
            assert(base@.skip(blen) =~= Seq::<u8>::empty());
            assert(Seq::<u8>::empty() + ghd + burst_members_text(ms, 0, false, false) =~= ghd
                + burst_members_text(ms, 0, false, false));
        }
        assert(burst_main_text(old(core_data).channels@[ci as int]) == gmain);
        let flen = core_data.write_buffer@.len() as int;
        if gbans.len() == 0 {
            assert(stripped_concat(core_data.write_buffer@, prevlen, gsp, blen) == gmain);
            assert(gsp == flen);
        } else {
            assert(stripped_concat(core_data.write_buffer@, prevlen, gsp, blen) == gmain);
            assert(stripped_concat(core_data.write_buffer@, gsp, flen, blen + 2)
                == burst_bans_text(gbans, 0));
            assert(forall|k: int|
                gsp <= k < flen ==> #[trigger] core_data.write_buffer@[k]@.len() >= blen + 2
                    && core_data.write_buffer@[k]@.subrange(0, blen + 2) == base@ + seq![
                    58u8,
                    37u8,
                ]);
        }
        assert(prevlen <= gsp <= flen);
        assert(old(core_data).channels@[ci as int].bans@ == gbans);
        assert(ghead =~= gbase + seq![43u8] + chan_mode_string(
            old(core_data).channels@[ci as int].modes,
            old(core_data).channels@[ci as int].limit,
            opt_view(old(core_data).channels@[ci as int].key),
            opt_view(old(core_data).channels@[ci as int].ext.upass),
            opt_view(old(core_data).channels@[ci as int].ext.apass),
        ));
        assert(core_data.write_buffer@[prevlen]@.len() >= ghead.len()
            && core_data.write_buffer@[prevlen]@.subrange(0, ghead.len() as int) == ghead);
    }
}

// --- The user mode engine ---

/// The mode bit of one user mode letter; 0 for a letter that carries no
/// bit (the fake-host letter `h`, unknown letters, `+` and `-`).
pub open spec fn umode_bit(c: u8) -> u64 {
    if c == 111 {
        UMODE_OPER
    } else if c == 105 {
        UMODE_INVISIBLE
    } else if c == 119 {
        UMODE_WALLOP
    } else if c == 100 {
        UMODE_DEAF
    } else if c == 107 {
        UMODE_SERVICE
    } else if c == 103 {
        UMODE_GLOBAL
    } else if c == 110 {
        UMODE_NOCHAN
    } else if c == 73 {
        UMODE_NOIDLE
    } else if c == 120 {
        UMODE_HIDDEN_HOST
    } else if c == 114 {
        UMODE_STAMPED
    } else {
        0
    }
}

/// The user mode bits after one pass over the letters of a mode word:
/// `+` and `-` switch direction, a letter's bit is set or cleared, letters
/// without a bit change nothing.
pub open spec fn apply_user_mode_letters(m: u64, letters: Seq<u8>, adding: bool) -> u64
    decreases letters.len(),
{
    if letters.len() == 0 {
        m
    } else {
        let c = letters[0];
        let rest = letters.skip(1);
        if c == 43 {
            apply_user_mode_letters(m, rest, true)
        } else if c == 45 {
            apply_user_mode_letters(m, rest, false)
        } else {
            let bit = umode_bit(c);
            let m2 = if bit == 0 {
                m
            } else if adding {
                m | bit
            } else {
                m & !bit
            };
            apply_user_mode_letters(m2, rest, adding)
        }
    }
}

/// The letters of a mode string: its first word, direction signs dropped.
pub open spec fn mode_letters_of(s: Seq<u8>) -> Seq<u8> {
    crate::utils::take_until_sp(s).filter(|c: u8| c != 43 && c != 45)
}

/// All the bits of a letter sequence together.
pub open spec fn or_ubits(letters: Seq<u8>) -> u64
    decreases letters.len(),
{
    if letters.len() == 0 {
        0
    } else {
        umode_bit(letters[0]) | or_ubits(letters.skip(1))
    }
}

/// Removing a toggle-free letter sequence clears exactly its bits.
pub proof fn lemma_apply_remove_all(x: u64, letters: Seq<u8>)
    requires
        forall|i: int| 0 <= i < letters.len() ==> #[trigger] letters[i] != 43 && letters[i] != 45,
    ensures
        apply_user_mode_letters(x, letters, false) == x & !or_ubits(letters),
    decreases letters.len(),
{
    if letters.len() == 0 {
        assert(x & !0u64 == x) by (bit_vector);
    } else {
        let c = letters[0];
        let rest = letters.skip(1);
        let b = umode_bit(c);
        let br = or_ubits(rest);
        if b == 0 {
            lemma_apply_remove_all(x, rest);
            assert(x & !(0u64 | br) == x & !br) by (bit_vector);
        } else {
            lemma_apply_remove_all(x & !b, rest);
            assert((x & !b) & !br == x & !(b | br)) by (bit_vector);
        }
    }
}

/// A letter's bit is among the bits of any sequence that holds the letter.
pub proof fn lemma_or_ubits_member(letters: Seq<u8>, c: u8)
    requires
        letters.contains(c),
    ensures
        or_ubits(letters) | umode_bit(c) == or_ubits(letters),
    decreases letters.len(),
{
    let b = umode_bit(c);
    let b0 = umode_bit(letters[0]);
    let br = or_ubits(letters.skip(1));
    if letters[0] == c {
        assert((b | br) | b == b | br) by (bit_vector);
    } else {
        let i = choose|i: int| 0 <= i < letters.len() && letters[i] == c;
        assert(letters.skip(1)[i - 1] == c);
        lemma_or_ubits_member(letters.skip(1), c);
        assert(br | b == br ==> (b0 | br) | b == b0 | br) by (bit_vector);
    }
}

/// Law: applying a mode string and then the string that removes every one
/// of its letters leaves each of those letters' bits clear, whatever they
/// were before; only the words that the account and fake-host letters
/// carry are outside this statement.
pub proof fn lemma_user_modes_cancel(u: u64, m: Seq<u8>, c: u8)
    requires
        mode_letters_of(m).contains(c),
    ensures
        apply_user_mode_letters(
            apply_user_mode_letters(u, crate::utils::take_until_sp(m), true),
            seq![45u8] + mode_letters_of(m),
            true,
        ) & umode_bit(c) == 0,
{
    let letters = mode_letters_of(m);
    let word = crate::utils::take_until_sp(m);
    assert forall|i: int|
        0 <= i < letters.len() implies #[trigger] letters[i] != 43 && letters[i] != 45 by {
        word.lemma_filter_pred(|c: u8| c != 43 && c != 45, i);
    }
    let x = apply_user_mode_letters(u, word, true);
    assert((seq![45u8] + letters)[0] == 45);
    assert((seq![45u8] + letters).skip(1) =~= letters);
    lemma_apply_remove_all(x, letters);
    lemma_or_ubits_member(letters, c);
    let bb: u64 = or_ubits(letters);
    let b: u64 = umode_bit(c);
    assert(bb | b == bb ==> (x & !bb) & b == 0) by (bit_vector);
}

// --- The channel mode engine ---

/// The mode bit of one channel mode letter; 0 for an unknown letter.
pub open spec fn cmode_bit(c: u8) -> u64 {
    if c == 112 {
        CMODE_PRIVATE
    } else if c == 115 {
        CMODE_SECRET
    } else if c == 109 {
        CMODE_MODERATED
    } else if c == 116 {
        CMODE_TOPICLIMIT
    } else if c == 105 {
        CMODE_INVITEONLY
    } else if c == 110 {
        CMODE_NOPRIVMSGS
    } else if c == 107 {
        CMODE_KEY
    } else if c == 98 {
        CMODE_BAN
    } else if c == 108 {
        CMODE_LIMIT
    } else if c == 68 {
        CMODE_DELAYJOINS
    } else if c == 114 {
        CMODE_REGONLY
    } else if c == 99 {
        CMODE_NOCOLORS
    } else if c == 67 {
        CMODE_NOCTCPS
    } else if c == 122 {
        CMODE_REGISTERED
    } else if c == 65 {
        CMODE_APASS
    } else if c == 85 {
        CMODE_UPASS
    } else {
        0
    }
}

/// The letter of channel mode bit number `ii`, in the order they are
/// written in a burst.
pub open spec fn cmode_letter(ii: int) -> u8 {
    if ii == 0 {
        112u8
    } else if ii == 1 {
        115u8
    } else if ii == 2 {
        109u8
    } else if ii == 3 {
        116u8
    } else if ii == 4 {
        105u8
    } else if ii == 5 {
        110u8
    } else if ii == 6 {
        107u8
    } else if ii == 7 {
        98u8
    } else if ii == 8 {
        108u8
    } else if ii == 9 {
        68u8
    } else if ii == 10 {
        114u8
    } else if ii == 11 {
        99u8
    } else if ii == 12 {
        67u8
    } else if ii == 13 {
        122u8
    } else if ii == 14 {
        65u8
    } else {
        117u8
    }
}

/// The value of channel mode bit number `ii`.
pub open spec fn cmode_mask(ii: int) -> u64 {
    if ii == 0 {
        1u64
    } else if ii == 1 {
        2u64
    } else if ii == 2 {
        4u64
    } else if ii == 3 {
        8u64
    } else if ii == 4 {
        16u64
    } else if ii == 5 {
        32u64
    } else if ii == 6 {
        64u64
    } else if ii == 7 {
        128u64
    } else if ii == 8 {
        256u64
    } else if ii == 9 {
        512u64
    } else if ii == 10 {
        1024u64
    } else if ii == 11 {
        2048u64
    } else if ii == 12 {
        4096u64
    } else if ii == 13 {
        8192u64
    } else if ii == 14 {
        16384u64
    } else {
        32768u64
    }
}

/// The channel mode bits after adding every letter of a sequence.
pub open spec fn apply_channel_mode_letters(m: u64, letters: Seq<u8>) -> u64
    decreases letters.len(),
{
    if letters.len() == 0 {
        m
    } else {
        let bit = cmode_bit(letters[0]);
        let m2 = if bit == 0 {
            m
        } else {
            m | bit
        };
        apply_channel_mode_letters(m2, letters.skip(1))
    }
}

/// All the bits of a channel mode letter sequence together.
pub open spec fn or_cbits(letters: Seq<u8>) -> u64
    decreases letters.len(),
{
    if letters.len() == 0 {
        0
    } else {
        cmode_bit(letters[0]) | or_cbits(letters.skip(1))
    }
}

pub proof fn lemma_apply_channel_or(m: u64, letters: Seq<u8>)
    ensures
        apply_channel_mode_letters(m, letters) == m | or_cbits(letters),
    decreases letters.len(),
{
    if letters.len() == 0 {
        assert(m | 0u64 == m) by (bit_vector);
    } else {
        let b = cmode_bit(letters[0]);
        let br = or_cbits(letters.skip(1));
        if b == 0 {
            lemma_apply_channel_or(m, letters.skip(1));
            assert(m | (0u64 | br) == m | br) by (bit_vector);
        } else {
            lemma_apply_channel_or(m | b, letters.skip(1));
            assert((m | b) | br == m | (b | br)) by (bit_vector);
        }
    }
}

/// The burst mode letters of a channel mode word, from bit `ii` up: one
/// letter for each set bit below the user-password bit.
pub open spec fn cmode_letters_of(m: u64, ii: int) -> Seq<u8>
    decreases 15 - ii,
{
    if ii < 0 || ii >= 15 {
        Seq::empty()
    } else {
        (if m & cmode_mask(ii) != 0 {
            seq![cmode_letter(ii)]
        } else {
            Seq::empty()
        }) + cmode_letters_of(m, ii + 1)
    }
}

/// The bits the burst mode letters cover, from bit `ii` up.
pub open spec fn covered_cmask(ii: int) -> u64
    decreases 15 - ii,
{
    if ii < 0 || ii >= 15 {
        0u64
    } else {
        cmode_mask(ii) | covered_cmask(ii + 1)
    }
}

pub proof fn lemma_cmode_or(m: u64, ii: int)
    requires
        0 <= ii <= 15,
    ensures
        or_cbits(cmode_letters_of(m, ii)) == m & covered_cmask(ii),
    decreases 15 - ii,
{
    if ii == 15 {
        assert(m & 0u64 == 0u64) by (bit_vector);
    } else {
        lemma_cmode_or(m, ii + 1);
        let b: u64 = cmode_mask(ii);
        let rest: u64 = covered_cmask(ii + 1);
        let orrest: u64 = or_cbits(cmode_letters_of(m, ii + 1));
        assert(cmode_bit(cmode_letter(ii)) == b);
        assert(b == 1 || b == 2 || b == 4 || b == 8 || b == 16 || b == 32 || b == 64 || b == 128
            || b == 256 || b == 512 || b == 1024 || b == 2048 || b == 4096 || b == 8192 || b
            == 16384);
        if m & b != 0 {
            let letters = cmode_letters_of(m, ii);
            assert(letters == seq![cmode_letter(ii)] + cmode_letters_of(m, ii + 1));
            assert(letters[0] == cmode_letter(ii));
            assert(letters.skip(1) =~= cmode_letters_of(m, ii + 1));
            assert((b == 1 || b == 2 || b == 4 || b == 8 || b == 16 || b == 32 || b == 64 || b
                == 128 || b == 256 || b == 512 || b == 1024 || b == 2048 || b == 4096 || b == 8192
                || b == 16384) && m & b != 0 && orrest == m & rest ==> b | orrest == m & (b | rest))
                by (bit_vector);
        } else {
            assert(cmode_letters_of(m, ii) =~= cmode_letters_of(m, ii + 1));
            assert(m & b == 0 && orrest == m & rest ==> orrest == m & (b | rest)) by (bit_vector);
        }
    }
}

/// Law: the burst mode letters of a channel mode word, applied to a fresh
/// channel, give back exactly the bits the letters cover: every bit below
/// the user-password bit.
pub proof fn lemma_channel_modes_roundtrip(m: u64)
    ensures
        apply_channel_mode_letters(0, cmode_letters_of(m, 0)) == m & 32767,
{
    lemma_apply_channel_or(0, cmode_letters_of(m, 0));
    lemma_cmode_or(m, 0);
    assert(16384u64 | 0 == 16384 && 8192u64 | 16384 == 24576 && 4096u64 | 24576 == 28672
        && 2048u64 | 28672 == 30720 && 1024u64 | 30720 == 31744 && 512u64 | 31744 == 32256
        && 256u64 | 32256 == 32512 && 128u64 | 32512 == 32640 && 64u64 | 32640 == 32704 && 32u64
        | 32704 == 32736 && 16u64 | 32736 == 32752 && 8u64 | 32752 == 32760 && 4u64 | 32760
        == 32764 && 2u64 | 32764 == 32766 && 1u64 | 32766 == 32767) by (bit_vector);
    assert(covered_cmask(15) == 0);
    assert(covered_cmask(14) == 16384);
    assert(covered_cmask(13) == 24576);
    assert(covered_cmask(12) == 28672);
    assert(covered_cmask(11) == 30720);
    assert(covered_cmask(10) == 31744);
    assert(covered_cmask(9) == 32256);
    assert(covered_cmask(8) == 32512);
    assert(covered_cmask(7) == 32640);
    assert(covered_cmask(6) == 32704);
    assert(covered_cmask(5) == 32736);
    assert(covered_cmask(4) == 32752);
    assert(covered_cmask(3) == 32760);
    assert(covered_cmask(2) == 32764);
    assert(covered_cmask(1) == 32766);
    assert(covered_cmask(0) == 32767);
    let r: u64 = or_cbits(cmode_letters_of(m, 0));
    assert(r == m & 32767 ==> 0u64 | r == m & 32767) by (bit_vector);
}


/// A space-free byte string splits as one token.
pub proof fn lemma_split_sp_single(s: Seq<u8>, cur: Seq<u8>)
    requires
        forall|i: int| 0 <= i < s.len() ==> #[trigger] s[i] != 32,
        cur.len() + s.len() > 0,
    ensures
        crate::utils::split_sp_from(s, cur) == seq![cur + s],
    decreases s.len(),
{
    if s.len() == 0 {
        assert(cur + s =~= cur);
    } else {
        assert forall|i: int| 0 <= i < s.skip(1).len() implies #[trigger] s.skip(1)[i] != 32 by {
            assert(s.skip(1)[i] == s[i + 1]);
        }
        lemma_split_sp_single(s.skip(1), cur.push(s[0]));
        assert(cur.push(s[0]) + s.skip(1) =~= cur + s);
    }
}

/// No burst mode letter is a space.
pub proof fn lemma_cmode_letters_no_space(m: u64, ii: int)
    ensures
        forall|i: int|
            0 <= i < cmode_letters_of(m, ii).len() ==> #[trigger] cmode_letters_of(m, ii)[i] != 32,
    decreases 15 - ii,
{
    if 0 <= ii < 15 {
        lemma_cmode_letters_no_space(m, ii + 1);
        assert forall|i: int|
            0 <= i < cmode_letters_of(m, ii).len() implies #[trigger] cmode_letters_of(m, ii)[i]
            != 32 by {
            if m & cmode_mask(ii) != 0 {
                if i == 0 {
                    assert(cmode_letters_of(m, ii)[0] == cmode_letter(ii));
                } else {
                    assert(cmode_letters_of(m, ii)[i] == cmode_letters_of(m, ii + 1)[i - 1]);
                }
            } else {
                assert(cmode_letters_of(m, ii) =~= cmode_letters_of(m, ii + 1));
            }
        }
    }
}

/// Law: the mode string a burst writes for bits `m` alone, read back the
/// way a channel mode string is read — cut into tokens, the first token's
/// letters added to a fresh channel — gives back exactly the bits the
/// burst letters cover.
pub proof fn lemma_mode_string_reparse_bits(m: u64)
    ensures
        ({
            let s = seq![43u8] + chan_mode_string(m, 0, None, None, None);
            let toks = crate::utils::split_sp(s);
            toks.len() == 1 && apply_channel_mode_letters(0, tail_of(toks[0])) == m & 32767
        }),
{
    reveal(chan_mode_string);
    let letters = cmode_letters_of(m, 0);
    let s = seq![43u8] + chan_mode_string(m, 0, None, None, None);
    assert(chan_mode_string(m, 0, None, None, None) =~= letters);
    assert(s =~= seq![43u8] + letters);
    lemma_cmode_letters_no_space(m, 0);
    assert forall|i: int| 0 <= i < s.len() implies #[trigger] s[i] != 32 by {
        if i > 0 {
            assert(s[i] == letters[i - 1]);
        }
    }
    lemma_split_sp_single(s, Seq::empty());
    assert(Seq::empty() + s =~= s);
    let toks = crate::utils::split_sp(s);
    assert(toks[0] == s);
    assert(tail_of(s) =~= letters);
    lemma_channel_modes_roundtrip(m);
}

/// Whether a channel carries a mode bit.
pub fn p10_channel_has_mode(channel: &Channel, flag: u64) -> (r: bool)
    ensures
        r <==> channel.modes & flag > 0,
{
    channel.modes & flag > 0
}

/// Sets or, for intended remove semantics, clears one channel mode bit.
fn p10_set_channel_mode_helper(channel: &mut Channel, adding: bool, flag: u64)
    ensures
        *final(channel) == (Channel { modes: final(channel).modes, ..*old(channel) }),
        final(channel).modes == if adding {
            old(channel).modes | flag
        } else {
            old(channel).modes & !flag
        },
{
    if adding {
        channel.modes = channel.modes | flag;
    } else {
        channel.modes = channel.modes & !flag;
    }
}

/// Applies one channel mode letter to a channel's mode bits.
pub fn p10_add_channel_mode(channel: &mut Channel, adding: bool, mode: u8)
    ensures
        *final(channel) == (Channel { modes: final(channel).modes, ..*old(channel) }),
        final(channel).modes == ({
            let bit = cmode_bit(mode);
            if bit == 0 {
                old(channel).modes
            } else if adding {
                old(channel).modes | bit
            } else {
                old(channel).modes & !bit
            }
        }),
{
    if mode == 112 {
        p10_set_channel_mode_helper(channel, adding, CMODE_PRIVATE);
    } else if mode == 115 {
        p10_set_channel_mode_helper(channel, adding, CMODE_SECRET);
    } else if mode == 109 {
        p10_set_channel_mode_helper(channel, adding, CMODE_MODERATED);
    } else if mode == 116 {
        p10_set_channel_mode_helper(channel, adding, CMODE_TOPICLIMIT);
    } else if mode == 105 {
        p10_set_channel_mode_helper(channel, adding, CMODE_INVITEONLY);
    } else if mode == 110 {
        p10_set_channel_mode_helper(channel, adding, CMODE_NOPRIVMSGS);
    } else if mode == 107 {
        p10_set_channel_mode_helper(channel, adding, CMODE_KEY);
    } else if mode == 98 {
        p10_set_channel_mode_helper(channel, adding, CMODE_BAN);
    } else if mode == 108 {
        p10_set_channel_mode_helper(channel, adding, CMODE_LIMIT);
    } else if mode == 68 {
        p10_set_channel_mode_helper(channel, adding, CMODE_DELAYJOINS);
    } else if mode == 114 {
        p10_set_channel_mode_helper(channel, adding, CMODE_REGONLY);
    } else if mode == 99 {
        p10_set_channel_mode_helper(channel, adding, CMODE_NOCOLORS);
    } else if mode == 67 {
        p10_set_channel_mode_helper(channel, adding, CMODE_NOCTCPS);
    } else if mode == 122 {
        p10_set_channel_mode_helper(channel, adding, CMODE_REGISTERED);
    } else if mode == 65 {
        p10_set_channel_mode_helper(channel, adding, CMODE_APASS);
    } else if mode == 85 {
        p10_set_channel_mode_helper(channel, adding, CMODE_UPASS);
    }
}

/// The tokens after the first byte of a token; empty for an empty token.
pub open spec fn tail_of(s: Seq<u8>) -> Seq<u8> {
    if s.len() == 0 {
        Seq::empty()
    } else {
        s.skip(1)
    }
}

/// The view of an optional byte vector.
pub open spec fn opt_view(o: Option<Vec<u8>>) -> Option<Seq<u8>> {
    match o {
        Some(v) => Some(v@),
        None => None,
    }
}

/// The positional arguments of a channel mode string, consumed in the
/// order the consuming letters appear: limit, key, user password and admin
/// password, one argument for the first occurrence of each letter whose
/// bit is set.  A malformed limit falls back to 0.  Returns the final
/// (limit, key, upass, apass).
pub open spec fn chan_args_apply(
    letters: Seq<u8>,
    args: Seq<Seq<u8>>,
    bits: u64,
    limit: u64,
    key: Option<Seq<u8>>,
    upass: Option<Seq<u8>>,
    apass: Option<Seq<u8>>,
    lf: bool,
    kf: bool,
    uf: bool,
    af: bool,
) -> (u64, Option<Seq<u8>>, Option<Seq<u8>>, Option<Seq<u8>>)
    decreases letters.len(),
{
    if letters.len() == 0 {
        (limit, key, upass, apass)
    } else {
        let c = letters[0];
        let rest = letters.skip(1);
        if c == 108 && !lf && bits & CMODE_LIMIT != 0 && args.len() > 0 {
            let v: u64 = if crate::utils::is_dec_digits(args[0]) && crate::utils::dec_val(args[0])
                <= u64::MAX {
                crate::utils::dec_val(args[0]) as u64
            } else {
                0
            };
            chan_args_apply(rest, args.skip(1), bits, v, key, upass, apass, true, kf, uf, af)
        } else if c == 107 && !kf && bits & CMODE_KEY != 0 && args.len() > 0 {
            chan_args_apply(
                rest,
                args.skip(1),
                bits,
                limit,
                Some(args[0]),
                upass,
                apass,
                lf,
                true,
                uf,
                af,
            )
        } else if c == 85 && !uf && bits & CMODE_UPASS != 0 && args.len() > 0 {
            chan_args_apply(
                rest,
                args.skip(1),
                bits,
                limit,
                key,
                Some(args[0]),
                apass,
                lf,
                kf,
                true,
                af,
            )
        } else if c == 65 && !af && bits & CMODE_APASS != 0 && args.len() > 0 {
            chan_args_apply(
                rest,
                args.skip(1),
                bits,
                limit,
                key,
                upass,
                Some(args[0]),
                lf,
                kf,
                uf,
                true,
            )
        } else {
            chan_args_apply(rest, args, bits, limit, key, upass, apass, lf, kf, uf, af)
        }
    }
}

/// Argument consumption keeps the rule that an argument is stored only
/// under its mode bit.
pub proof fn lemma_chan_args_wf(
    letters: Seq<u8>,
    args: Seq<Seq<u8>>,
    bits: u64,
    limit: u64,
    key: Option<Seq<u8>>,
    upass: Option<Seq<u8>>,
    apass: Option<Seq<u8>>,
    lf: bool,
    kf: bool,
    uf: bool,
    af: bool,
)
    requires
        limit > 0 ==> bits & CMODE_LIMIT != 0,
        key is Some ==> bits & CMODE_KEY != 0,
        upass is Some ==> bits & CMODE_UPASS != 0,
        apass is Some ==> bits & CMODE_APASS != 0,
    ensures
        ({
            let r = chan_args_apply(letters, args, bits, limit, key, upass, apass, lf, kf, uf, af);
            &&& r.0 > 0 ==> bits & CMODE_LIMIT != 0
            &&& r.1 is Some ==> bits & CMODE_KEY != 0
            &&& r.2 is Some ==> bits & CMODE_UPASS != 0
            &&& r.3 is Some ==> bits & CMODE_APASS != 0
        }),
    decreases letters.len(),
{
    if letters.len() > 0 {
        let c = letters[0];
        let rest = letters.skip(1);
        if c == 108 && !lf && bits & CMODE_LIMIT != 0 && args.len() > 0 {
            let v: u64 = if crate::utils::is_dec_digits(args[0]) && crate::utils::dec_val(args[0])
                <= u64::MAX {
                crate::utils::dec_val(args[0]) as u64
            } else {
                0
            };
            lemma_chan_args_wf(rest, args.skip(1), bits, v, key, upass, apass, true, kf, uf, af);
        } else if c == 107 && !kf && bits & CMODE_KEY != 0 && args.len() > 0 {
            lemma_chan_args_wf(
                rest,
                args.skip(1),
                bits,
                limit,
                Some(args[0]),
                upass,
                apass,
                lf,
                true,
                uf,
                af,
            );
        } else if c == 85 && !uf && bits & CMODE_UPASS != 0 && args.len() > 0 {
            lemma_chan_args_wf(
                rest,
                args.skip(1),
                bits,
                limit,
                key,
                Some(args[0]),
                apass,
                lf,
                kf,
                true,
                af,
            );
        } else if c == 65 && !af && bits & CMODE_APASS != 0 && args.len() > 0 {
            lemma_chan_args_wf(
                rest,
                args.skip(1),
                bits,
                limit,
                key,
                upass,
                Some(args[0]),
                lf,
                kf,
                uf,
                true,
            );
        } else {
            lemma_chan_args_wf(rest, args, bits, limit, key, upass, apass, lf, kf, uf, af);
        }
    }
}

/// Applies a channel mode string: the first token's letters (after its
/// direction sign) are added to the mode bits, then the remaining tokens
/// are consumed as the arguments of the consuming letters, in letter
/// order.
pub fn p10_set_channel_modes(channel: &mut Channel, mode_list: &[u8])
    ensures
        ({
            let toks = crate::utils::split_sp(mode_list@);
            if toks.len() == 0 {
                *final(channel) == *old(channel)
            } else {
                let letters = tail_of(toks[0]);
                let bits = apply_channel_mode_letters(old(channel).modes, letters);
                let r = chan_args_apply(
                    letters,
                    toks.skip(1),
                    bits,
                    old(channel).limit,
                    opt_view(old(channel).key),
                    opt_view(old(channel).ext.upass),
                    opt_view(old(channel).ext.apass),
                    false,
                    false,
                    false,
                    false,
                );
                &&& final(channel).modes == bits
                &&& final(channel).limit == r.0
                &&& opt_view(final(channel).key) == r.1
                &&& opt_view(final(channel).ext.upass) == r.2
                &&& opt_view(final(channel).ext.apass) == r.3
                &&& final(channel).name == old(channel).name
                &&& final(channel).topic == old(channel).topic
                &&& final(channel).topic_nick == old(channel).topic_nick
                &&& final(channel).topic_time == old(channel).topic_time
                &&& final(channel).created == old(channel).created
                &&& final(channel).bans == old(channel).bans
                &&& final(channel).members == old(channel).members
                &&& final(channel).ext.delayed_join == old(channel).ext.delayed_join
            }
        }),
        crate::core_data::channel_args_wf(*old(channel)) ==> crate::core_data::channel_args_wf(
            *final(channel),
        ),
{
    let ghost toks = crate::utils::split_sp(mode_list@);
    let tokens = crate::utils::split_string(mode_list);
    if tokens.len() == 0 {
        return ;
    }
    let first_len = tokens[0].len();
    let ghost letters = tail_of(toks[0]);
    let ghost orig = *channel;
    let mut jj: usize = 1;
    proof {
        assert(letters.skip(0) =~= letters);
    }
    while jj < first_len
        invariant
            1 <= jj,
            jj <= first_len || first_len == 0,
            crate::utils::seq_views(tokens@) == toks,
            toks.len() == tokens@.len(),
            toks.len() > 0,
            first_len == toks[0].len(),
            letters == tail_of(toks[0]),
            jj - 1 <= letters.len(),
            apply_channel_mode_letters(orig.modes, letters) == apply_channel_mode_letters(
                channel.modes,
                letters.skip(jj - 1),
            ),
            *channel == (Channel { modes: channel.modes, ..orig }),
        decreases first_len - jj,
    {
        proof {
            assert(letters.skip(jj - 1)[0] == toks[0][jj as int]);
            assert(letters.skip(jj - 1).skip(1) =~= letters.skip(jj as int));
        }
        let m = tokens[0][jj];
        p10_add_channel_mode(channel, true, m);
        jj += 1;
    }
    proof {
        assert(jj - 1 == letters.len());
        assert(letters.skip(letters.len() as int) =~= Seq::<u8>::empty());
    }
    let ghost bits = channel.modes;
    let ghost args = toks.skip(1);
    let mut argi: usize = 1;
    let mut lf: bool = false;
    let mut kf: bool = false;
    let mut uf: bool = false;
    let mut af: bool = false;
    let mut li: usize = 1;
    proof {
        assert(letters.skip(0) =~= letters);
        assert(args.skip(0) =~= args);
    }
    while li < first_len
        invariant
            1 <= li,
            li <= first_len || first_len == 0,
            1 <= argi,
            argi <= tokens@.len(),
            crate::utils::seq_views(tokens@) == toks,
            toks.len() == tokens@.len(),
            toks.len() > 0,
            first_len == toks[0].len(),
            letters == tail_of(toks[0]),
            li - 1 <= letters.len(),
            args == toks.skip(1),
            channel.modes == bits,
            *channel == (Channel {
                modes: channel.modes,
                limit: channel.limit,
                key: channel.key,
                ext: P10ChannelExt {
                    upass: channel.ext.upass,
                    apass: channel.ext.apass,
                    ..orig.ext
                },
                ..orig
            }),
            chan_args_apply(
                letters,
                args,
                bits,
                orig.limit,
                opt_view(orig.key),
                opt_view(orig.ext.upass),
                opt_view(orig.ext.apass),
                false,
                false,
                false,
                false,
            ) == chan_args_apply(
                letters.skip(li - 1),
                args.skip(argi - 1),
                bits,
                channel.limit,
                opt_view(channel.key),
                opt_view(channel.ext.upass),
                opt_view(channel.ext.apass),
                lf,
                kf,
                uf,
                af,
            ),
        decreases first_len - li,
    {
        proof {
            assert(letters.skip(li - 1)[0] == toks[0][li as int]);
            assert(letters.skip(li - 1).skip(1) =~= letters.skip(li as int));
            assert(args.skip(argi - 1).len() == toks.len() - argi);
            if argi < toks.len() {
                assert(args.skip(argi - 1)[0] == toks[argi as int]);
                assert(args.skip(argi - 1).skip(1) =~= args.skip(argi as int));
            }
        }
        let c = tokens[0][li];
        if c == 108 && !lf && p10_channel_has_mode(channel, CMODE_LIMIT) && argi < tokens.len() {
            channel.limit = match crate::utils::parse_u64_bytes(tokens[argi].as_slice()) {
                Some(v) => v,
                None => 0,
            };
            lf = true;
            argi += 1;
        } else if c == 107 && !kf && p10_channel_has_mode(channel, CMODE_KEY) && argi
            < tokens.len() {
            channel.key = Some(bytes_of(tokens[argi].as_slice()));
            kf = true;
            argi += 1;
        } else if c == 85 && !uf && p10_channel_has_mode(channel, CMODE_UPASS) && argi
            < tokens.len() {
            channel.ext.upass = Some(bytes_of(tokens[argi].as_slice()));
            uf = true;
            argi += 1;
        } else if c == 65 && !af && p10_channel_has_mode(channel, CMODE_APASS) && argi
            < tokens.len() {
            channel.ext.apass = Some(bytes_of(tokens[argi].as_slice()));
            af = true;
            argi += 1;
        }
        li += 1;
    }
    proof {
        assert(li - 1 == letters.len());
        assert(letters.skip(letters.len() as int) =~= Seq::<u8>::empty());
        lemma_apply_channel_or(orig.modes, letters);
        let m0: u64 = orig.modes;
        let ob: u64 = or_cbits(letters);
        assert(m0 & CMODE_LIMIT != 0 ==> (m0 | ob) & CMODE_LIMIT != 0) by (bit_vector);
        assert(m0 & CMODE_KEY != 0 ==> (m0 | ob) & CMODE_KEY != 0) by (bit_vector);
        assert(m0 & CMODE_UPASS != 0 ==> (m0 | ob) & CMODE_UPASS != 0) by (bit_vector);
        assert(m0 & CMODE_APASS != 0 ==> (m0 | ob) & CMODE_APASS != 0) by (bit_vector);
        if crate::core_data::channel_args_wf(orig) {
            lemma_chan_args_wf(
                letters,
                args,
                bits,
                orig.limit,
                opt_view(orig.key),
                opt_view(orig.ext.upass),
                opt_view(orig.ext.apass),
                false,
                false,
                false,
                false,
            );
        }
    }
}

/// The mode string of a channel as a burst writes it: the letters of the
/// set bits, then the arguments in the order their letters stand in the
/// string — key, limit, admin password — so that reading the string back
/// pairs each argument with its letter; the user password, whose bit has
/// no burst letter, comes last.
#[verifier::opaque]
pub open spec fn chan_mode_string(
    modes: u64,
    limit: u64,
    key: Option<Seq<u8>>,
    upass: Option<Seq<u8>>,
    apass: Option<Seq<u8>>,
) -> Seq<u8> {
    cmode_letters_of(modes, 0) + (match key {
        Some(k) => seq![32u8] + k,
        None => Seq::empty(),
    }) + (if limit > 0 {
        seq![32u8] + crate::utils::dec_digits(limit as int)
    } else {
        Seq::empty()
    }) + (match apass {
        Some(a) => seq![32u8] + a,
        None => Seq::empty(),
    }) + (match upass {
        Some(u) => seq![32u8] + u,
        None => Seq::empty(),
    })
}

/// The value of channel mode bit number `ii`.
fn cmode_mask_of(ii: usize) -> (r: u64)
    ensures
        r == cmode_mask(ii as int),
{
    if ii == 0 {
        1
    } else if ii == 1 {
        2
    } else if ii == 2 {
        4
    } else if ii == 3 {
        8
    } else if ii == 4 {
        16
    } else if ii == 5 {
        32
    } else if ii == 6 {
        64
    } else if ii == 7 {
        128
    } else if ii == 8 {
        256
    } else if ii == 9 {
        512
    } else if ii == 10 {
        1024
    } else if ii == 11 {
        2048
    } else if ii == 12 {
        4096
    } else if ii == 13 {
        8192
    } else if ii == 14 {
        16384
    } else {
        32768
    }
}

/// The letter of channel mode bit number `ii`.
fn cmode_letter_of(ii: usize) -> (r: u8)
    ensures
        r == cmode_letter(ii as int),
{
    if ii == 0 {
        112
    } else if ii == 1 {
        115
    } else if ii == 2 {
        109
    } else if ii == 3 {
        116
    } else if ii == 4 {
        105
    } else if ii == 5 {
        110
    } else if ii == 6 {
        107
    } else if ii == 7 {
        98
    } else if ii == 8 {
        108
    } else if ii == 9 {
        68
    } else if ii == 10 {
        114
    } else if ii == 11 {
        99
    } else if ii == 12 {
        67
    } else if ii == 13 {
        122
    } else if ii == 14 {
        65
    } else {
        117
    }
}

/// Writes a channel's modes the way a burst carries them.
pub fn p10_build_channel_mode_string(
    modes: u64,
    limit: u64,
    key_option: &Option<Vec<u8>>,
    ext: &P10ChannelExt,
) -> (r: Vec<u8>)
    requires
        limit > 0 ==> modes & CMODE_LIMIT != 0,
        key_option is Some ==> modes & CMODE_KEY != 0,
        ext.upass is Some ==> modes & CMODE_UPASS != 0,
        ext.apass is Some ==> modes & CMODE_APASS != 0,
    ensures
        r@ == chan_mode_string(
            modes,
            limit,
            opt_view(*key_option),
            opt_view(ext.upass),
            opt_view(ext.apass),
        ),
{
    let mut buf: Vec<u8> = Vec::new();
    let mut ii: usize = 0;
    while ii < 15
        invariant
            ii <= 15,
            cmode_letters_of(modes, 0) == buf@ + cmode_letters_of(modes, ii as int),
        decreases 15 - ii,
    {
        let ghost prev = buf@;
        if modes & cmode_mask_of(ii) != 0 {
            buf.push(cmode_letter_of(ii));
            proof {
                assert(cmode_letters_of(modes, ii as int) == seq![cmode_letter(ii as int)]
                    + cmode_letters_of(modes, ii + 1));
                assert(prev + cmode_letters_of(modes, ii as int) =~= buf@ + cmode_letters_of(
                    modes,
                    ii + 1,
                ));
            }
        } else {
            proof {
                assert(cmode_letters_of(modes, ii as int) =~= cmode_letters_of(modes, ii + 1));
            }
        }
        ii += 1;
    }
    proof {
        assert(cmode_letters_of(modes, 15) =~= Seq::<u8>::empty());
        assert(buf@ + cmode_letters_of(modes, 15) =~= buf@);
    }
    match key_option {
        Some(k) => {
            buf.push(32);
            buf.extend_from_slice(k.as_slice());
        },
        None => {},
    }
    if limit > 0 {
        buf.push(32);
        let digits = crate::utils::u64_to_dec(limit);
        buf.extend_from_slice(digits.as_slice());
    }
    match &ext.apass {
        Some(a) => {
            buf.push(32);
            buf.extend_from_slice(a.as_slice());
        },
        None => {},
    }
    match &ext.upass {
        Some(u) => {
            buf.push(32);
            buf.extend_from_slice(u.as_slice());
        },
        None => {},
    }
    proof {
        reveal(chan_mode_string);
        assert(buf@ =~= chan_mode_string(
            modes,
            limit,
            opt_view(*key_option),
            opt_view(ext.upass),
            opt_view(ext.apass),
        ));
    }
    buf
}


/// Letters without a bit in a sequence leave a disjoint mask untouched.
pub proof fn lemma_apply_outside(x: u64, letters: Seq<u8>, adding: bool, mask: u64)
    requires
        forall|i: int| 0 <= i < letters.len() ==> umode_bit(#[trigger] letters[i]) & mask == 0,
    ensures
        apply_user_mode_letters(x, letters, adding) & mask == x & mask,
    decreases letters.len(),
{
    if letters.len() > 0 {
        let c = letters[0];
        let b = umode_bit(c);
        if c == 43 {
            lemma_apply_outside(x, letters.skip(1), true, mask);
        } else if c == 45 {
            lemma_apply_outside(x, letters.skip(1), false, mask);
        } else if b == 0 {
            lemma_apply_outside(x, letters.skip(1), adding, mask);
        } else if adding {
            lemma_apply_outside(x | b, letters.skip(1), adding, mask);
            assert(b & mask == 0 ==> (x | b) & mask == x & mask) by (bit_vector);
        } else {
            lemma_apply_outside(x & !b, letters.skip(1), adding, mask);
            assert(b & mask == 0 ==> (x & !b) & mask == x & mask) by (bit_vector);
        }
    }
}

/// Law: applying a mode string and then the string that removes its
/// letters leaves every bit no letter of the string names exactly as it
/// was before either call.
pub proof fn lemma_user_modes_outside(u: u64, m: Seq<u8>, mask: u64)
    requires
        forall|i: int|
            0 <= i < crate::utils::take_until_sp(m).len() ==> umode_bit(
                #[trigger] crate::utils::take_until_sp(m)[i],
            ) & mask == 0,
        forall|i: int|
            0 <= i < mode_letters_of(m).len() ==> umode_bit(#[trigger] mode_letters_of(m)[i])
                & mask == 0,
    ensures
        apply_user_mode_letters(
            apply_user_mode_letters(u, crate::utils::take_until_sp(m), true),
            seq![45u8] + mode_letters_of(m),
            true,
        ) & mask == u & mask,
{
    let word = crate::utils::take_until_sp(m);
    let letters = mode_letters_of(m);
    assert forall|i: int|
        0 <= i < (seq![45u8] + letters).len() implies umode_bit(
        #[trigger] (seq![45u8] + letters)[i],
    ) & mask == 0 by {
        if i == 0 {
            assert(umode_bit(45u8) == 0);
            assert(0u64 & mask == 0) by (bit_vector);
        } else {
            assert((seq![45u8] + letters)[i] == letters[i - 1]);
        }
    }
    lemma_apply_outside(u, word, true, mask);
    lemma_apply_outside(
        apply_user_mode_letters(u, word, true),
        seq![45u8] + letters,
        true,
        mask,
    );
}

/// Sets or clears one user mode bit.
fn p10_set_user_mode_helper(user: &mut User, adding: bool, flag: u64)
    ensures
        *final(user) == (User {
            base: crate::user::BaseUser { modes: final(user).base.modes, ..old(user).base },
            ..*old(user)
        }),
        final(user).base.modes == if adding {
            old(user).base.modes | flag
        } else {
            old(user).base.modes & !flag
        },
{
    if adding {
        user.base.modes = user.base.modes | flag;
    } else {
        user.base.modes = user.base.modes & !flag;
    }
}

/// Applies a user mode string to a user: the first word's letters drive
/// the mode bits; the account letter consumes the following word as the
/// account tag, the fake-host letter one word as `[ident@]host`.
pub fn p10_set_user_modes(user: &mut User, modes: &[u8])
    ensures
        *final(user) == (User {
            base: crate::user::BaseUser {
                modes: final(user).base.modes,
                account: final(user).base.account,
                ..old(user).base
            },
            ext: P10UserExt {
                fakeident: final(user).ext.fakeident,
                fakehost: final(user).ext.fakehost,
                ..old(user).ext
            },
            ..*old(user)
        }),
        final(user).base.modes == apply_user_mode_letters(
            old(user).base.modes,
            crate::utils::take_until_sp(modes@),
            true,
        ),
        !crate::utils::take_until_sp(modes@).contains(114u8) ==> final(user).base.account@ == old(
            user,
        ).base.account@,
        !crate::utils::take_until_sp(modes@).contains(104u8) ==> final(user).ext.fakeident@ == old(
            user,
        ).ext.fakeident@ && final(user).ext.fakehost@ == old(user).ext.fakehost@,
{
    let ghost letters = crate::utils::take_until_sp(modes@);
    proof {
        crate::utils::lemma_take_until_sp(modes@);
    }
    let mut wordptr: usize = 0;
    while wordptr < modes.len() && modes[wordptr] != 32
        invariant
            wordptr <= modes@.len(),
        decreases modes@.len() - wordptr,
    {
        wordptr += 1;
    }
    while wordptr < modes.len() && modes[wordptr] == 32
        invariant
            wordptr <= modes@.len(),
        decreases modes@.len() - wordptr,
    {
        wordptr += 1;
    }
    let mut adding: bool = true;
    let mut li: usize = 0;
    proof {
        assert(letters.skip(0) =~= letters);
    }
    while li < modes.len() && modes[li] != 32
        invariant
            li <= letters.len(),
            letters == crate::utils::take_until_sp(modes@),
            letters.len() <= modes@.len(),
            forall|i: int| 0 <= i < letters.len() ==> #[trigger] letters[i] == modes@[i],
            letters.len() == modes@.len() || modes@[letters.len() as int] == 32,
            wordptr <= modes@.len(),
            apply_user_mode_letters(old(user).base.modes, letters, true)
                == apply_user_mode_letters(user.base.modes, letters.skip(li as int), adding),
            *user == (User {
                base: crate::user::BaseUser {
                    modes: user.base.modes,
                    account: user.base.account,
                    ..old(user).base
                },
                ext: P10UserExt {
                    fakeident: user.ext.fakeident,
                    fakehost: user.ext.fakehost,
                    ..old(user).ext
                },
                ..*old(user)
            }),
            !letters.contains(114u8) ==> user.base.account@ == old(user).base.account@,
            !letters.contains(104u8) ==> user.ext.fakeident@ == old(user).ext.fakeident@
                && user.ext.fakehost@ == old(user).ext.fakehost@,
        decreases modes@.len() - li,
    {
        let c = modes[li];
        proof {
            if li == letters.len() {
                assert(modes@[li as int] == 32);
                assert(false);
            }
            assert(letters[li as int] == c);
            assert(letters.skip(li as int)[0] == c);
            assert(letters.skip(li as int).skip(1) =~= letters.skip(li + 1));
        }
        if c == 43 {
            adding = true;
        } else if c == 45 {
            adding = false;
        } else if c == 111 {
            p10_set_user_mode_helper(user, adding, UMODE_OPER);
        } else if c == 105 {
            p10_set_user_mode_helper(user, adding, UMODE_INVISIBLE);
        } else if c == 119 {
            p10_set_user_mode_helper(user, adding, UMODE_WALLOP);
        } else if c == 100 {
            p10_set_user_mode_helper(user, adding, UMODE_DEAF);
        } else if c == 107 {
            p10_set_user_mode_helper(user, adding, UMODE_SERVICE);
        } else if c == 103 {
            p10_set_user_mode_helper(user, adding, UMODE_GLOBAL);
        } else if c == 110 {
            p10_set_user_mode_helper(user, adding, UMODE_NOCHAN);
        } else if c == 73 {
            p10_set_user_mode_helper(user, adding, UMODE_NOIDLE);
        } else if c == 120 {
            p10_set_user_mode_helper(user, adding, UMODE_HIDDEN_HOST);
        } else if c == 114 {
            proof {
                assert(letters.contains(114u8));
            }
            let mut tag: Vec<u8> = Vec::new();
            while wordptr < modes.len() && modes[wordptr] != 32 && modes[wordptr] != 58
                invariant
                    wordptr <= modes@.len(),
                decreases modes@.len() - wordptr,
            {
                tag.push(modes[wordptr]);
                wordptr += 1;
            }
            if wordptr < modes.len() && modes[wordptr] == 58 {
                // The optional numeric stamp after the colon is skipped.
                wordptr += 1;
            }
            while wordptr < modes.len() && modes[wordptr] == 32
                invariant
                    wordptr <= modes@.len(),
                decreases modes@.len() - wordptr,
            {
                wordptr += 1;
            }
            p10_set_user_mode_helper(user, adding, UMODE_STAMPED);
            user.base.account = tag;
        } else if c == 104 {
            proof {
                assert(letters.contains(104u8));
            }
            let mut mask: Vec<u8> = Vec::new();
            while wordptr < modes.len() && modes[wordptr] != 32
                invariant
                    wordptr <= modes@.len(),
                decreases modes@.len() - wordptr,
            {
                mask.push(modes[wordptr]);
                wordptr += 1;
            }
            while wordptr < modes.len() && modes[wordptr] == 32
                invariant
                    wordptr <= modes@.len(),
                decreases modes@.len() - wordptr,
            {
                wordptr += 1;
            }
            let mut got_at: bool = false;
            let mut back: Vec<u8> = Vec::new();
            let mut front: Vec<u8> = Vec::new();
            let mut mi: usize = 0;
            while mi < mask.len()
                invariant
                    mi <= mask@.len(),
                decreases mask@.len() - mi,
            {
                let ch = mask[mi];
                if ch == 64 && !got_at {
                    got_at = true;
                } else if got_at {
                    back.push(ch);
                } else {
                    front.push(ch);
                }
                mi += 1;
            }
            if back.len() > 0 {
                user.ext.fakeident = front;
                user.ext.fakehost = back;
            } else {
                user.ext.fakehost = front;
            }
        } else {
            // An unknown letter is ignored.
        }
        li += 1;
    }
    proof {
        if li < modes@.len() {
            assert(modes@[li as int] == 32);
            if li < letters.len() {
                assert(letters[li as int] == modes@[li as int]);
                assert(false);
            }
        } else {
            assert(li == modes@.len());
        }
        assert(li == letters.len());
        assert(letters.skip(li as int) =~= Seq::<u8>::empty());
    }
}


// --- Command handlers ---

/// Handles PASS: a wrong receive password is tolerated, and the line
/// changes nothing; only its argument count is checked.
pub fn p10_cmd_pass(
    core_data: &mut crate::core_data::NeroData,
    origin: &[u8],
    argc: usize,
    argv: &Vec<Vec<u8>>,
) -> (r: Result<(), ()>)
    requires
        argc == argv@.len(),
    ensures
        *final(core_data) == *old(core_data),
        r is Err <==> argc != 2,
{
    if argc != 2 {
        return Err(());
    }
    if matches!(core_data.uplink, Some(_)) {
        return Ok(());
    }
    // The password is compared but a mismatch is not fatal.
    let _password_ok = crate::utils::bytes_eq(
        core_data.config.uplink.recv_pass.as_slice(),
        argv[1].as_slice(),
    );
    Ok(())
}

/// Handles EA, the acknowledgement of our end of burst: nothing to do.
pub fn p10_cmd_ea(core_data: &mut crate::core_data::NeroData, origin: &[u8]) -> (r: Result<(), ()>)
    ensures
        *final(core_data) == *old(core_data),
        r is Ok,
{
    Ok(())
}

/// Handles GL, a G-line: accepted and ignored.
pub fn p10_cmd_gl(
    core_data: &mut crate::core_data::NeroData,
    origin: &[u8],
    argc: usize,
    argv: &Vec<Vec<u8>>,
) -> (r: Result<(), ()>)
    ensures
        *final(core_data) == *old(core_data),
        r is Ok,
{
    Ok(())
}

/// Handles G, a ping: replies with a pong carrying the asked-for fields.
pub fn p10_cmd_g(
    core_data: &mut crate::core_data::NeroData,
    origin: &[u8],
    argc: usize,
    argv: &Vec<Vec<u8>>,
) -> (r: Result<(), ()>)
    requires
        crate::core_data::wf(*old(core_data)),
        argc == argv@.len(),
    ensures
        crate::core_data::wf(*final(core_data)),
        crate::core_data::members_wf(*old(core_data)) ==> crate::core_data::members_wf(
            *final(core_data),
        ),
        r is Ok,
        *final(core_data) == (crate::core_data::NeroData {
            write_buffer: final(core_data).write_buffer,
            ..*old(core_data)
        }),
        argc > 3 ==> final(core_data).write_buffer@.len() == old(core_data).write_buffer@.len() + 1
            && final(core_data).write_buffer@ == old(core_data).write_buffer@.push(
            final(core_data).write_buffer@.last(),
        ) && final(core_data).write_buffer@.last()@ == pong_line(
            old(core_data).config.uplink.numeric->Some_0@,
            argv@[2]@,
            argv@[3]@,
        ),
        argc <= 3 ==> *final(core_data) == *old(core_data),
{
    if argc > 3 {
        let pong = p10_irc_pong_asll(core_data, argv[2].as_slice(), argv[3].as_slice());
        let ghost prev = *core_data;
        core_data.add_to_buffer(pong.as_slice());
        proof {
            crate::core_data::lemma_same_store(prev, *core_data);
            assert(core_data.write_buffer@.last()@ == pong_line(
                old(core_data).config.uplink.numeric->Some_0@,
                argv@[2]@,
                argv@[3]@,
            ));
        }
    }
    Ok(())
}

/// Handles EB from a server: the sender's burst is over; when the sender
/// is our own uplink we answer with our end of burst and its
/// acknowledgement and the link is connected.
pub fn p10_cmd_eb(core_data: &mut crate::core_data::NeroData, origin: &[u8]) -> (r: Result<(), ()>)
    requires
        crate::core_data::wf(*old(core_data)),
    ensures
        crate::core_data::wf(*final(core_data)),
        crate::core_data::members_wf(*old(core_data)) ==> crate::core_data::members_wf(
            *final(core_data),
        ),
        final(core_data).users@ == old(core_data).users@,
        *final(core_data) == (crate::core_data::NeroData {
            servers: final(core_data).servers,
            write_buffer: final(core_data).write_buffer,
            state: final(core_data).state,
            ..*old(core_data)
        }),
        r is Err <==> (old(core_data).uplink is None || find_server_rec(
            old(core_data).servers@,
            origin@,
            0,
        ) == -1),
        r is Err ==> *final(core_data) == *old(core_data),
        crate::net::state_rank(final(core_data).state) >= crate::net::state_rank(
            old(core_data).state,
        ),
        r is Ok ==> ({
            let si = find_server_rec(old(core_data).servers@, origin@, 0);
            let up = old(core_data).uplink->Some_0;
            let is_uplink = old(core_data).servers@[si].base.hostname@ == old(core_data).servers@[up as int].base.hostname@;
            &&& final(core_data).servers@ == old(core_data).servers@.update(
                si,
                final(core_data).servers@[si],
            )
            &&& final(core_data).servers@[si] == (crate::server::Server {
                ext: P10ServExt { self_burst: false, ..old(core_data).servers@[si].ext },
                ..old(core_data).servers@[si]
            })
            &&& final(core_data).users@ == old(core_data).users@
            &&& final(core_data).channels@ == old(core_data).channels@
            &&& (is_uplink ==> final(core_data).write_buffer@.len() == old(core_data).write_buffer@.len() + 2 && final(core_data).write_buffer@[old(core_data).write_buffer@.len() as int]@ == old(core_data).config.uplink.numeric->Some_0@ + seq![
                32u8,
                69u8,
                66u8,
            ] && final(core_data).write_buffer@.last()@ == old(core_data).config.uplink.numeric->Some_0@ + seq![32u8, 69u8, 65u8] && (old(core_data).state
                == crate::net::ConnectionState::Bursting ==> final(core_data).state
                == crate::net::ConnectionState::Connected) && (old(core_data).state
                != crate::net::ConnectionState::Bursting ==> final(core_data).state == old(core_data).state))
            &&& (!is_uplink ==> final(core_data).write_buffer@ == old(core_data).write_buffer@
                && final(core_data).state == old(core_data).state)
            &&& forall|k: int|
                0 <= k < old(core_data).write_buffer@.len() ==> #[trigger] final(core_data).write_buffer@[k] == old(core_data).write_buffer@[k]
        }),
{
    let up: usize = match core_data.uplink {
        Some(u) => u,
        None => {
            return Err(());
        },
    };
    let si: usize = match find_server_numeric(core_data, origin) {
        Some(s) => s,
        None => {
            return Err(());
        },
    };
    let is_uplink = crate::utils::bytes_eq(
        core_data.servers[si].base.hostname.as_slice(),
        core_data.servers[up].base.hostname.as_slice(),
    );
    if is_uplink {
        let eob = p10_irc_eob(core_data);
        let eob_ack = p10_irc_eob_ack(core_data);
        core_data.add_to_buffer(eob.as_slice());
        core_data.add_to_buffer(eob_ack.as_slice());
        if matches!(core_data.state, crate::net::ConnectionState::Bursting) {
            core_data.state = crate::net::ConnectionState::Connected;
        }
    }
    let ghost prev = *core_data;
    core_data.servers[si].ext.self_burst = false;
    proof {
        crate::core_data::lemma_same_store(prev, *core_data);
        assert(core_data.servers@ =~= old(core_data).servers@.update(
            si as int,
            core_data.servers@[si as int],
        ));
    }
    Ok(())
}

/// What kind of hook a text message fires: to a channel when the target
/// starts with a channel sigil, else to one of our own pseudo-users.
pub open spec fn textmessage_hook_type(target: Seq<u8>, is_privmsg: bool) -> crate::plugin::HookType {
    if target.len() > 0 && (target[0] == 35 || target[0] == 38) {
        if is_privmsg {
            crate::plugin::HookType::PrivmsgChan
        } else {
            crate::plugin::HookType::NoticeChan
        }
    } else {
        if is_privmsg {
            crate::plugin::HookType::PrivmsgBot
        } else {
            crate::plugin::HookType::NoticeBot
        }
    }
}

/// Handles P and O, a private message or notice: fires the matching hook
/// with the sender's nick, the channel name or target user's nick, and the
/// message text.
pub fn p10_cmd_textmessage(
    core_data: &mut crate::core_data::NeroData,
    origin: &[u8],
    argc: usize,
    argv: &Vec<Vec<u8>>,
    is_privmsg: bool,
) -> (r: Result<(), ()>)
    requires
        crate::core_data::wf(*old(core_data)),
        argc == argv@.len(),
        forall|i: int| 0 <= i < argv@.len() ==> #[trigger] argv@[i]@.len() > 0,
    ensures
        crate::core_data::wf(*final(core_data)),
        crate::core_data::members_wf(*old(core_data)) ==> crate::core_data::members_wf(
            *final(core_data),
        ),
        *final(core_data) == (crate::core_data::NeroData {
            fired_hooks: final(core_data).fired_hooks,
            ..*old(core_data)
        }),
        r is Err <==> (argc < 2 || find_user_rec(old(core_data).users@, origin@, 0) == -1 || (
        textmessage_hook_type(argv@[1]@, is_privmsg) == crate::plugin::HookType::PrivmsgBot
            && find_user_rec(old(core_data).users@, argv@[1]@, 0) == -1)),
        r is Err ==> *final(core_data) == *old(core_data),
        r is Ok ==> ({
            let ht = textmessage_hook_type(argv@[1]@, is_privmsg);
            let si = find_user_rec(old(core_data).users@, origin@, 0);
            let tkey = if ht == crate::plugin::HookType::PrivmsgBot {
                old(core_data).users@[find_user_rec(old(core_data).users@, argv@[1]@, 0)].base.nick@
            } else {
                argv@[1]@
            };
            &&& final(core_data).fired_hooks@.len() == old(core_data).fired_hooks@.len()
                + crate::core_data::matching_events(old(core_data).events@, ht).len()
            &&& forall|k: int|
                0 <= k < old(core_data).fired_hooks@.len() ==> #[trigger] final(core_data).fired_hooks@[k] == old(core_data).fired_hooks@[k]
            &&& forall|k: int|
                #![trigger final(core_data).fired_hooks@[k]]
                old(core_data).fired_hooks@.len() <= k < final(core_data).fired_hooks@.len() ==> (
                final(core_data).fired_hooks@[k].plugin_id == crate::core_data::matching_events(
                    old(core_data).events@,
                    ht,
                )[k - old(core_data).fired_hooks@.len()].plugin_id && final(core_data).fired_hooks@[k].data.hook_type == ht && final(core_data).fired_hooks@[k].data.target@ == tkey && final(core_data).fired_hooks@[k].data.origin@ == old(core_data).users@[si].base.nick@ && final(core_data).fired_hooks@[k].data.message@ == argv@[(argc - 1) as int]@ && final(core_data).fired_hooks@[k].data.server is None)
        }),
{
    if argc < 2 {
        return Err(());
    }
    let si: usize = match find_user_numeric(core_data, origin) {
        Some(u) => u,
        None => {
            return Err(());
        },
    };
    let target = &argv[1];
    let target_prefix = target[0];
    let is_chan = target_prefix == 35 || target_prefix == 38;
    let hook_type = if is_chan {
        if is_privmsg {
            crate::plugin::HookType::PrivmsgChan
        } else {
            crate::plugin::HookType::NoticeChan
        }
    } else {
        if is_privmsg {
            crate::plugin::HookType::PrivmsgBot
        } else {
            crate::plugin::HookType::NoticeBot
        }
    };
    let target_key: Vec<u8> = if matches!(hook_type, crate::plugin::HookType::PrivmsgBot) {
        match find_user_numeric(core_data, target.as_slice()) {
            Some(ti) => bytes_of(core_data.users[ti].base.nick.as_slice()),
            None => {
                return Err(());
            },
        }
    } else {
        bytes_of(target.as_slice())
    };
    let mut hook_data = crate::plugin::HookData::new(hook_type);
    hook_data.target = target_key;
    hook_data.origin = bytes_of(core_data.users[si].base.nick.as_slice());
    hook_data.message = bytes_of(argv[argc - 1].as_slice());
    let ghost prev = *core_data;
    core_data.fire_hook(&hook_data);
    proof {
        crate::core_data::lemma_same_store(prev, *core_data);
    }
    Ok(())
}

/// Handles T: sets a channel's topic, its setter when the origin names a
/// user, and its time from the line or, without one, from the clock.
pub fn p10_cmd_t(
    core_data: &mut crate::core_data::NeroData,
    origin: &[u8],
    argc: usize,
    argv: &Vec<Vec<u8>>,
) -> (r: Result<(), ()>)
    requires
        crate::core_data::wf(*old(core_data)),
        argc == argv@.len(),
        argc >= 1,
    ensures
        crate::core_data::wf(*final(core_data)),
        crate::core_data::members_wf(*old(core_data)) ==> crate::core_data::members_wf(
            *final(core_data),
        ),
        r is Err <==> (argc < 3 || find_channel_rec(old(core_data).channels@, argv@[1]@, 0) == -1),
        r is Err ==> *final(core_data) == *old(core_data),
        r is Ok ==> ({
            let ci = find_channel_rec(old(core_data).channels@, argv@[1]@, 0);
            let ui = find_user_rec(old(core_data).users@, origin@, 0);
            let tt = if argc >= 5 {
                ts_or_zero(argv@[3]@)
            } else {
                old(core_data).now
            };
            &&& *final(core_data) == (crate::core_data::NeroData {
                channels: final(core_data).channels,
                ..*old(core_data)
            })
            &&& final(core_data).channels@ == old(core_data).channels@.update(
                ci,
                final(core_data).channels@[ci],
            )
            &&& final(core_data).channels@[ci] == (Channel {
                topic: final(core_data).channels@[ci].topic,
                topic_nick: final(core_data).channels@[ci].topic_nick,
                topic_time: tt,
                ..old(core_data).channels@[ci]
            })
            &&& final(core_data).channels@[ci].topic@ == argv@[(argc - 1) as int]@
            &&& (ui != -1 ==> final(core_data).channels@[ci].topic_nick@ == old(core_data).users@[ui].base.nick@)
            &&& (ui == -1 && argc >= 5 ==> final(core_data).channels@[ci].topic_nick@ == argv@[2]@)
            &&& (ui == -1 && argc < 5 ==> final(core_data).channels@[ci].topic_nick == old(core_data).channels@[ci].topic_nick)
        }),
{
    if argc < 3 {
        return Err(());
    }
    let ci: usize = match find_channel(core_data, argv[1].as_slice()) {
        Some(c) => c,
        None => {
            return Err(());
        },
    };
    let topic_time: u64 = if argc >= 5 {
        match crate::utils::parse_u64_bytes(argv[3].as_slice()) {
            Some(v) => v,
            None => 0,
        }
    } else {
        core_data.now
    };
    let nick: Option<Vec<u8>> = match find_user_numeric(core_data, origin) {
        Some(ui) => Some(bytes_of(core_data.users[ui].base.nick.as_slice())),
        None => {
            if argc >= 5 {
                Some(bytes_of(argv[2].as_slice()))
            } else {
                None
            }
        },
    };
    let ghost prev = *core_data;
    let now = core_data.now;
    {
        let channel = &mut core_data.channels[ci];
        p10_set_channel_topic(now, channel, nick.as_ref(), argv[argc - 1].as_slice());
        channel.topic_time = topic_time;
    }
    proof {
        crate::core_data::lemma_wf_channels_cosmetic(prev, *core_data);
        if crate::core_data::members_wf(prev) {
            crate::core_data::lemma_members_wf_carry(prev, *core_data);
        }
        assert(core_data.channels@ =~= prev.channels@.update(
            ci as int,
            core_data.channels@[ci as int],
        ));
    }
    Ok(())
}

/// Handles Q, a user quitting: fires the quit hook with the user's nick,
/// its server and the quit message, then removes the user from the global
/// list and from its server's list.
pub fn p10_cmd_q(
    core_data: &mut crate::core_data::NeroData,
    origin: &[u8],
    argc: usize,
    argv: &Vec<Vec<u8>>,
) -> (r: Result<(), ()>)
    requires
        crate::core_data::wf(*old(core_data)),
        argc == argv@.len(),
        argc >= 1,
    ensures
        crate::core_data::wf(*final(core_data)),
        r is Err <==> (find_user_rec(old(core_data).users@, origin@, 0) == -1 || origin@.len() < 3
            || origin@.len() > 5),
        r is Err ==> *final(core_data) == *old(core_data),
        final(core_data).state == old(core_data).state,
        *final(core_data) == (crate::core_data::NeroData {
            users: final(core_data).users,
            servers: final(core_data).servers,
            fired_hooks: final(core_data).fired_hooks,
            ..*old(core_data)
        }),
        r is Ok ==> final(core_data).users@.len() + 1 == old(core_data).users@.len(),
        r is Ok ==> ({
            let ui = find_user_rec(old(core_data).users@, origin@, 0);
            &&& final(core_data).users@ == old(core_data).users@.remove(ui)
            &&& final(core_data).channels@ == old(core_data).channels@
            &&& final(core_data).write_buffer@ == old(core_data).write_buffer@
            &&& final(core_data).fired_hooks@.len() == old(core_data).fired_hooks@.len()
                + crate::core_data::matching_events(
                old(core_data).events@,
                crate::plugin::HookType::UserQuit,
            ).len()
            &&& forall|k: int|
                #![trigger final(core_data).fired_hooks@[k]]
                old(core_data).fired_hooks@.len() <= k < final(core_data).fired_hooks@.len() ==> ({
                    let owner = old(core_data).servers@[old(core_data).users@[ui].uplink as int].base;
                    &&& final(core_data).fired_hooks@[k].data.hook_type
                        == crate::plugin::HookType::UserQuit
                    &&& final(core_data).fired_hooks@[k].data.target@ == old(core_data).users@[ui].base.nick@
                    &&& final(core_data).fired_hooks@[k].data.message@ == argv@[(argc - 1) as int]@
                    &&& final(core_data).fired_hooks@[k].data.server matches Some(sv)
                        && sv.hostname@ == owner.hostname@ && sv.description@ == owner.description@
                        && sv.hops == owner.hops && sv.boot == owner.boot && sv.link_time
                        == owner.link_time
                })
        }),
{
    let ui: usize = match find_user_numeric(core_data, origin) {
        Some(u) => u,
        None => {
            return Err(());
        },
    };
    if origin.len() < 3 || origin.len() > 5 {
        return Err(());
    }
    proof {
        lemma_find_user_rec(core_data.users@, origin@, 0);
        assert(crate::core_data::uowners(*core_data)[ui as int] == core_data.users@[ui as int].uplink as int);
        assert(crate::core_data::unicks(*core_data)[ui as int] == core_data.users@[ui as int].ext.numeric@);
    }
    let up = core_data.users[ui].uplink;
    let mut hook_data = crate::plugin::HookData::new(crate::plugin::HookType::UserQuit);
    hook_data.target = bytes_of(core_data.users[ui].base.nick.as_slice());
    hook_data.server = Some(crate::server::copy_base_server(&core_data.servers[up].base));
    hook_data.message = bytes_of(argv[argc - 1].as_slice());
    let ghost prev = *core_data;
    core_data.fire_hook(&hook_data);
    proof {
        crate::core_data::lemma_same_store(prev, *core_data);
        lemma_find_user_rec(core_data.users@, origin@, 0);
    }
    let dr = p10_del_user(core_data, origin);
    proof {
        if dr is Err {
            assert(false);
        }
    }
    Ok(())
}

/// Handles N: an origin that names a user changes that user's nick; any
/// other origin creates the user described by the line and fires the
/// user-connected hook.  A new-user line with no mode word leaves the new
/// user with no mode bits.
#[verifier::rlimit(100)]
pub fn p10_cmd_n(
    core_data: &mut crate::core_data::NeroData,
    origin: &[u8],
    argc: usize,
    argv: &Vec<Vec<u8>>,
) -> (r: Result<(), ()>)
    requires
        crate::core_data::wf(*old(core_data)),
        argc == argv@.len(),
        argc >= 1,
    ensures
        crate::core_data::wf(*final(core_data)),
        crate::core_data::members_wf(*old(core_data)) ==> crate::core_data::members_wf(
            *final(core_data),
        ),
        final(core_data).state == old(core_data).state,
        r is Err ==> *final(core_data) == *old(core_data),
        *final(core_data) == (crate::core_data::NeroData {
            users: final(core_data).users,
            servers: final(core_data).servers,
            fired_hooks: final(core_data).fired_hooks,
            ..*old(core_data)
        }),
        ({
            let ui = find_user_rec(old(core_data).users@, origin@, 0);
            if ui != -1 {
                &&& (r is Err <==> argc < 2)
                &&& (r is Ok ==> final(core_data).users@ == old(core_data).users@.update(
                    ui,
                    final(core_data).users@[ui],
                ) && final(core_data).users@[ui] == (User {
                    base: crate::user::BaseUser {
                        nick: final(core_data).users@[ui].base.nick,
                        ..old(core_data).users@[ui].base
                    },
                    ..old(core_data).users@[ui]
                }) && final(core_data).users@[ui].base.nick@ == argv@[1]@ && *final(core_data)
                    == (crate::core_data::NeroData {
                    users: final(core_data).users,
                    ..*old(core_data)
                }))
            } else {
                &&& (argc < 9 ==> r is Err && *final(core_data) == *old(core_data))
                &&& (argc >= 9 && find_server_rec(old(core_data).servers@, origin@, 0) != -1 && 3
                    <= argv@[(argc - 2) as int]@.len() <= 5 && find_user_rec(
                    old(core_data).users@,
                    argv@[(argc - 2) as int]@,
                    0,
                ) == -1 ==> r is Ok)
                &&& (r is Ok ==> argc >= 9 && final(core_data).users@.len() == old(core_data).users@.len() + 1 && final(core_data).users@.last().base.nick@ == argv@[1]@
                    && final(core_data).users@.last().base.ident@ == argv@[4]@
                    && final(core_data).users@.last().base.host@ == argv@[5]@
                    && final(core_data).users@.last().ext.numeric@ == argv@[(argc - 2) as int]@
                    && final(core_data).users@.last().base.gecos@ == argv@[(argc - 1) as int]@
                    && final(core_data).users@.last().base.ip@ == base64_to_ip(
                    argv@[(argc - 3) as int]@,
                ) && (argc == 9 ==> final(core_data).users@.last().base.modes == 0
                    && final(core_data).users@.last().base.account@.len() == 0
                    && final(core_data).users@.last().ext.fakeident@.len() == 0
                    && final(core_data).users@.last().ext.fakehost@.len() == 0) && (argc > 9
                    ==> final(core_data).users@.last().base.modes == apply_user_mode_letters(
                    0,
                    crate::utils::take_until_sp(
                        crate::utils::unsplit_spec(
                            crate::utils::seq_views(argv@),
                            argc as int,
                            6,
                            argc - 9,
                        ),
                    ),
                    true,
                )) && final(core_data).channels@ == old(core_data).channels@ && final(core_data).write_buffer@ == old(core_data).write_buffer@)
                &&& (r is Ok ==> ({
                    let si = find_server_rec(old(core_data).servers@, origin@, 0);
                    let owner = old(core_data).servers@[si].base;
                    &&& si != -1
                    &&& final(core_data).fired_hooks@.len() == old(core_data).fired_hooks@.len()
                        + crate::core_data::matching_events(
                        old(core_data).events@,
                        crate::plugin::HookType::UserConnected,
                    ).len()
                    &&& forall|k: int|
                        0 <= k < old(core_data).fired_hooks@.len() ==> #[trigger] final(core_data).fired_hooks@[k] == old(core_data).fired_hooks@[k]
                    &&& forall|k: int|
                        #![trigger final(core_data).fired_hooks@[k]]
                        old(core_data).fired_hooks@.len() <= k < final(core_data).fired_hooks@.len()
                            ==> (final(core_data).fired_hooks@[k].data.hook_type
                            == crate::plugin::HookType::UserConnected && final(core_data).fired_hooks@[k].data.target@ == argv@[1]@ && final(core_data).fired_hooks@[k].plugin_id
                            == crate::core_data::matching_events(
                            old(core_data).events@,
                            crate::plugin::HookType::UserConnected,
                        )[k - old(core_data).fired_hooks@.len()].plugin_id && (final(core_data).fired_hooks@[k].data.server matches Some(sv) && sv.hostname@ == owner.hostname@
                            && sv.description@ == owner.description@ && sv.hops == owner.hops
                            && sv.boot == owner.boot && sv.link_time == owner.link_time))
                }))
            }
        }),
{
    let found = find_user_numeric(core_data, origin);
    proof {
        lemma_find_user_rec(core_data.users@, origin@, 0);
    }
    match found {
        Some(ui) => {
            if argc < 2 {
                return Err(());
            }
            let ghost prev = *core_data;
            core_data.users[ui].base.nick = bytes_of(argv[1].as_slice());
            proof {
                assert(crate::core_data::unicks(*core_data) =~= crate::core_data::unicks(prev));
                assert(crate::core_data::uowners(*core_data) =~= crate::core_data::uowners(prev));
                assert(crate::core_data::slists(*core_data) =~~= crate::core_data::slists(prev));
                assert(core_data.users@ =~= prev.users@.update(
                    ui as int,
                    core_data.users@[ui as int],
                ));
                if crate::core_data::members_wf(prev) {
                    assert forall|c: int, m: int|
                        0 <= c < core_data.channels@.len() && 0 <= m
                            < core_data.channels@[c].members@.len() implies crate::core_data::unicks(
                        *core_data,
                    ).contains(#[trigger] core_data.channels@[c].members@[m].user_numeric@) by {
                        assert(crate::core_data::unicks(prev).contains(
                            prev.channels@[c].members@[m].user_numeric@,
                        ));
                    }
                }
            }
            Ok(())
        },
        None => {
            if argc < 9 {
                return Err(());
            }
            let server = find_server_numeric(core_data, origin);
            let modes: Vec<u8> = if argc > 9 {
                crate::utils::unsplit_string(argv.as_slice(), argc, 6, argc - 9)
            } else {
                let mut m: Vec<u8> = Vec::new();
                m.push(43);
                m
            };
            let ar = p10_add_user(
                core_data,
                server,
                argv[1].as_slice(),
                argv[4].as_slice(),
                argv[5].as_slice(),
                modes.as_slice(),
                argv[argc - 2].as_slice(),
                argv[argc - 1].as_slice(),
                argv[3].as_slice(),
                argv[argc - 3].as_slice(),
            );
            match ar {
                Ok(ui) => {
                    proof {
                        if argc == 9 {
                            assert(modes@ =~= seq![43u8]);
                            assert(seq![43u8].skip(1) =~= Seq::<u8>::empty());
                            assert(crate::utils::take_until_sp(seq![43u8]) =~= seq![43u8]
                                + crate::utils::take_until_sp(seq![43u8].skip(1)));
                            assert(crate::utils::take_until_sp(seq![43u8]) =~= seq![43u8]);
                            assert(apply_user_mode_letters(0, seq![43u8], true)
                                == apply_user_mode_letters(0, seq![43u8].skip(1), true));
                        }
                    }
                    let up = core_data.users[ui].uplink;
                    let mut hook_data = crate::plugin::HookData::new(
                        crate::plugin::HookType::UserConnected,
                    );
                    hook_data.target = bytes_of(core_data.users[ui].base.nick.as_slice());
                    hook_data.server = Some(
                        crate::server::copy_base_server(&core_data.servers[up].base),
                    );
                    let ghost mid = *core_data;
                    core_data.fire_hook(&hook_data);
                    proof {
                        crate::core_data::lemma_same_store(mid, *core_data);
                    }
                    Ok(())
                },
                Err(_) => Err(()),
            }
        },
    }
}

/// Handles SERVER and S: records the server described by the line; the
/// first such line names our uplink and triggers the burst of our own
/// users.
pub fn p10_cmd_server(
    core_data: &mut crate::core_data::NeroData,
    origin: &[u8],
    argc: usize,
    argv: &Vec<Vec<u8>>,
) -> (r: Result<(), ()>)
    requires
        crate::core_data::wf(*old(core_data)),
        argc == argv@.len(),
    ensures
        crate::core_data::wf(*final(core_data)),
        crate::core_data::members_wf(*old(core_data)) ==> crate::core_data::members_wf(
            *final(core_data),
        ),
        r is Err <==> (argc < 9 || argv@[6]@.len() < 2),
        r is Err ==> *final(core_data) == *old(core_data),
        final(core_data).state == old(core_data).state,
        *final(core_data) == (crate::core_data::NeroData {
            servers: final(core_data).servers,
            uplink: final(core_data).uplink,
            write_buffer: final(core_data).write_buffer,
            unbursted_channels: final(core_data).unbursted_channels,
            ..*old(core_data)
        }),
        r is Ok ==> ({
            let sv = final(core_data).servers@.last();
            &&& final(core_data).servers@.len() == old(core_data).servers@.len() + 1
            &&& sv.base.hostname@ == argv@[1]@
            &&& sv.base.description@ == argv@[8]@
            &&& sv.ext.numeric@ == argv@[6]@.subrange(0, 2)
            &&& sv.base.hops as int == (if crate::utils::is_signed_dec(argv@[2]@) && -128
                <= crate::utils::signed_dec_val(argv@[2]@) <= 127 {
                crate::utils::signed_dec_val(argv@[2]@)
            } else {
                0
            })
            &&& sv.base.boot == ts_or_zero(argv@[3]@)
            &&& sv.base.link_time == ts_or_zero(argv@[4]@)
            &&& sv.users@.len() == 0
            &&& (old(core_data).uplink is None ==> sv.uplink is None)
            &&& (old(core_data).uplink is Some ==> sv.uplink == (if find_server_rec(
                old(core_data).servers@,
                origin@,
                0,
            ) != -1 {
                Some(find_server_rec(old(core_data).servers@, origin@, 0) as usize)
            } else {
                Option::<usize>::None
            }))
            &&& final(core_data).users@ == old(core_data).users@
            &&& final(core_data).channels@ == old(core_data).channels@
            &&& forall|j: int|
                0 <= j < old(core_data).servers@.len() ==> #[trigger] final(core_data).servers@[j]
                    == old(core_data).servers@[j]
            &&& (old(core_data).uplink is None ==> final(core_data).uplink == Some(
                old(core_data).servers@.len() as usize,
            ) && final(core_data).write_buffer@.len() == old(core_data).write_buffer@.len() + old(core_data).servers@[old(core_data).me as int].users@.len() && (forall|k: int|
                old(core_data).write_buffer@.len() <= k < final(core_data).write_buffer@.len()
                    ==> #[trigger] final(core_data).write_buffer@[k]@ == user_burst_line(
                    old(core_data).config.uplink.numeric->Some_0@,
                    old(core_data).now,
                    old(core_data).users@[find_user_rec(
                        old(core_data).users@,
                        old(core_data).servers@[old(core_data).me as int].users@[k - old(core_data).write_buffer@.len()]@,
                        0,
                    )],
                )))
            &&& (old(core_data).uplink is Some ==> final(core_data).uplink == old(core_data).uplink
                && final(core_data).write_buffer@ == old(core_data).write_buffer@)
            &&& forall|k: int|
                0 <= k < old(core_data).write_buffer@.len() ==> #[trigger] final(core_data).write_buffer@[k] == old(core_data).write_buffer@[k]
        }),
{
    if argc < 9 {
        return Err(());
    }
    if argv[6].len() < 2 {
        return Err(());
    }
    let mut server = crate::server::Server::new(argv[1].as_slice(), argv[8].as_slice());
    server.ext.numeric = bytes_of(vstd::slice::slice_subrange(argv[6].as_slice(), 0, 2));
    server.base.hops = match crate::utils::parse_i8_bytes(argv[2].as_slice()) {
        Some(v) => v,
        None => 0,
    };
    server.base.boot = match crate::utils::parse_u64_bytes(argv[3].as_slice()) {
        Some(v) => v,
        None => 0,
    };
    server.base.link_time = match crate::utils::parse_u64_bytes(argv[4].as_slice()) {
        Some(v) => v,
        None => 0,
    };
    let no_uplink_yet = matches!(core_data.uplink, None);
    if !no_uplink_yet {
        match find_server_numeric(core_data, origin) {
            Some(j) => {
                server.uplink = Some(j);
            },
            None => {},
        }
    }
    let ghost prev = *core_data;
    let new_index = core_data.servers.len();
    core_data.servers.push(server);
    proof {
        assert(crate::core_data::unicks(*core_data) =~= crate::core_data::unicks(prev));
        assert(crate::core_data::uowners(*core_data) =~= crate::core_data::uowners(prev));
        assert(crate::core_data::slists(*core_data) =~~= crate::core_data::slists(prev).push(
            Seq::empty(),
        ));
        lemma_store_add_server(
            crate::core_data::unicks(prev),
            crate::core_data::uowners(prev),
            crate::core_data::slists(prev),
        );
        if crate::core_data::members_wf(prev) {
            assert forall|c: int, m: int|
                0 <= c < core_data.channels@.len() && 0 <= m
                    < core_data.channels@[c].members@.len() implies crate::core_data::unicks(
                *core_data,
            ).contains(#[trigger] core_data.channels@[c].members@[m].user_numeric@) by {
                assert(crate::core_data::unicks(prev).contains(
                    prev.channels@[c].members@[m].user_numeric@,
                ));
            }
        }
    }
    if no_uplink_yet {
        core_data.uplink = Some(new_index);
        proof {
            crate::core_data::lemma_same_store(
                *core_data,
                crate::core_data::NeroData { uplink: core_data.uplink, ..*core_data },
            );
        }
        p10_burst_our_users(core_data);
    }
    Ok(())
}




/// How many argument-consuming letters a mode token carries after its
/// direction sign.
pub open spec fn bscan_count(t: Seq<u8>, i: int) -> int
    decreases t.len() - i,
{
    if i < 1 || i >= t.len() {
        0
    } else {
        (if t[i] == 107 || t[i] == 108 || t[i] == 65 || t[i] == 85 {
            1int
        } else {
            0int
        }) + bscan_count(t, i + 1)
    }
}

pub proof fn lemma_bscan_count_nonneg(t: Seq<u8>, i: int)
    ensures
        bscan_count(t, i) >= 0,
    decreases t.len() - i,
{
    if 1 <= i < t.len() {
        lemma_bscan_count_nonneg(t, i + 1);
    }
}

/// The mode, ban and member-list tokens scanned from a burst line's tail:
/// a `+` token takes as many following tokens as it has accumulated
/// argument-consuming letters (clipped to what is left), a `%` token gives
/// the ban list without its sign, anything else is the member list; a
/// later find of each kind wins.
pub open spec fn bscan_rec(
    argv: Seq<Seq<u8>>,
    argc: int,
    next: int,
    n_modes: int,
    ml: Seq<u8>,
    bl: Seq<u8>,
    ul: Seq<u8>,
) -> (Seq<u8>, Seq<u8>, Seq<u8>)
    decreases argc - next,
    via bscan_rec_dec
{
    if next < 3 || next >= argc || n_modes < 1 {
        (ml, bl, ul)
    } else {
        let t = argv[next];
        if t.len() > 0 && t[0] == 43 {
            let nm0 = n_modes + bscan_count(t, 1);
            let nm = if nm0 > argc - next {
                argc - next
            } else {
                nm0
            };
            bscan_rec(argv, argc, next + nm, nm, crate::utils::unsplit_spec(argv, argc, next, nm), bl, ul)
        } else if t.len() > 0 && t[0] == 37 {
            bscan_rec(argv, argc, next + 1, n_modes, ml, t.skip(1), ul)
        } else {
            bscan_rec(argv, argc, next + 1, n_modes, ml, bl, t)
        }
    }
}

#[via_fn]
proof fn bscan_rec_dec(
    argv: Seq<Seq<u8>>,
    argc: int,
    next: int,
    n_modes: int,
    ml: Seq<u8>,
    bl: Seq<u8>,
    ul: Seq<u8>,
) {
    if !(next < 3 || next >= argc || n_modes < 1) {
        let t = argv[next];
        if t.len() > 0 && t[0] == 43 {
            lemma_bscan_count_nonneg(t, 1);
        }
    }
}

pub open spec fn bscan(argv: Seq<Seq<u8>>, argc: int) -> (Seq<u8>, Seq<u8>, Seq<u8>) {
    bscan_rec(argv, argc, 3, 1, Seq::empty(), Seq::empty(), Seq::empty())
}


/// One op-run byte applied to a member's pending modes and oplevel: `o`
/// and `v` set their bits, a digit collapses to oplevel 999, anything else
/// changes nothing.
pub open spec fn bmode_step(c: u8, modes: u64, opl: u64) -> (u64, u64) {
    if c == 111 {
        (modes | MMODE_CHANOP, opl)
    } else if c == 118 {
        (modes | MMODE_VOICE, opl)
    } else if 48 <= c <= 57 {
        (modes, 999u64)
    } else {
        (modes, opl)
    }
}

/// The member entries of a burst's comma-separated member list: each entry
/// is a numnick with the modes and oplevel of the last `:`-run before it;
/// a run sticks to later entries until the next `:`.  The walk mirrors the
/// wire quirks: the final byte still counts into the last entry, and a
/// one-byte list yields nothing.
pub open spec fn bmembers_rec(
    s: Seq<u8>,
    i: int,
    buf: Seq<u8>,
    modes: u64,
    opl: u64,
    colon: bool,
) -> Seq<(Seq<u8>, u64, u64)>
    decreases s.len() - i,
{
    if i < 0 || i >= s.len() {
        Seq::empty()
    } else {
        let c = s[i];
        let last = i + 1 == s.len();
        if c == 44 || (i > 0 && last) {
            let e = if last {
                if colon {
                    let (m2, o2) = bmode_step(c, modes, opl);
                    (buf, m2, o2)
                } else {
                    (buf.push(c), modes, opl)
                }
            } else {
                (buf, modes, opl)
            };
            seq![e] + bmembers_rec(s, i + 1, Seq::empty(), e.1, e.2, false)
        } else if c == 58 {
            bmembers_rec(s, i + 1, buf, 0, 0, true)
        } else if colon {
            let (m2, o2) = bmode_step(c, modes, opl);
            bmembers_rec(s, i + 1, buf, m2, o2, true)
        } else {
            bmembers_rec(s, i + 1, buf.push(c), modes, opl, colon)
        }
    }
}

pub open spec fn bmembers(s: Seq<u8>) -> Seq<(Seq<u8>, u64, u64)> {
    bmembers_rec(s, 0, Seq::empty(), 0, 0, false)
}

/// Whether the channel's members from position `base_len` on carry, in
/// order, exactly the given entries: numnick, modes, oplevel, and the
/// given idle stamp.
pub open spec fn bmembers_match(
    c: Channel,
    base_len: int,
    kept: Seq<(Seq<u8>, u64, u64)>,
    now: u64,
) -> bool {
    forall|e: int|
        #![trigger kept[e]]
        0 <= e < kept.len() ==> ({
            let m = c.members@[base_len + e];
            &&& m.user_numeric@ == kept[e].0
            &&& m.base.modes == kept[e].1
            &&& m.ext.oplevel == kept[e].2
            &&& m.base.idle == now
        })
}

/// The member entries whose numnick names a stored user, in order: the
/// ones a burst join actually appends.
pub open spec fn bmembers_kept(
    entries: Seq<(Seq<u8>, u64, u64)>,
    users: Seq<User>,
) -> Seq<(Seq<u8>, u64, u64)>
    decreases entries.len(),
{
    if entries.len() == 0 {
        Seq::empty()
    } else {
        let rest = bmembers_kept(entries.drop_last(), users);
        if find_user_rec(users, entries.last().0, 0) != -1 {
            rest.push(entries.last())
        } else {
            rest
        }
    }
}

/// The creation timestamp a burst line carries: its decimal value, or the
/// clock when it is not a plain number.
pub open spec fn ts_or_now(s: Seq<u8>, now: u64) -> u64 {
    if crate::utils::is_dec_digits(s) && crate::utils::dec_val(s) <= u64::MAX {
        crate::utils::dec_val(s) as u64
    } else {
        now
    }
}


/// Appending the member a kept entry describes extends the matched run of
/// entries by one.
proof fn lemma_bmembers_step(
    chan_pre: Channel,
    chan_post: Channel,
    base_len: int,
    users: Seq<User>,
    pre_done: Seq<(Seq<u8>, u64, u64)>,
    entry: (Seq<u8>, u64, u64),
    now: u64,
)
    requires
        find_user_rec(users, entry.0, 0) != -1,
        base_len >= 0,
        chan_pre.members@.len() == base_len + bmembers_kept(pre_done, users).len(),
        bmembers_match(chan_pre, base_len, bmembers_kept(pre_done, users), now),
        chan_post.members@.len() == chan_pre.members@.len() + 1,
        forall|k: int|
            0 <= k < chan_pre.members@.len() ==> #[trigger] chan_post.members@[k]
                == chan_pre.members@[k],
        chan_post.members@[chan_pre.members@.len() as int].user_numeric@ == entry.0,
        chan_post.members@[chan_pre.members@.len() as int].base.modes == entry.1,
        chan_post.members@[chan_pre.members@.len() as int].ext.oplevel == entry.2,
        chan_post.members@[chan_pre.members@.len() as int].base.idle == now,
    ensures
        bmembers_kept(pre_done.push(entry), users) == bmembers_kept(pre_done, users).push(entry),
        bmembers_match(chan_post, base_len, bmembers_kept(pre_done.push(entry), users), now),
        chan_post.members@.len() == base_len + bmembers_kept(pre_done.push(entry), users).len(),
{
    assert(pre_done.push(entry).drop_last() =~= pre_done);
    assert(pre_done.push(entry).last() == entry);
    let kept = bmembers_kept(pre_done, users);
    let kept2 = bmembers_kept(pre_done.push(entry), users);
    assert(kept2 == kept.push(entry));
    assert forall|e: int|
        #![trigger kept2[e]]
        0 <= e < kept2.len() implies ({
        let m = chan_post.members@[base_len + e];
        &&& m.user_numeric@ == kept2[e].0
        &&& m.base.modes == kept2[e].1
        &&& m.ext.oplevel == kept2[e].2
        &&& m.base.idle == now
    }) by {
        if e < kept.len() {
            assert(kept2[e] == kept[e]);
            let pm = chan_pre.members@[base_len + e];
            assert(pm.user_numeric@ == kept[e].0 && pm.base.modes == kept[e].1 && pm.ext.oplevel
                == kept[e].2 && pm.base.idle == now);
            assert(chan_post.members@[base_len + e] == chan_pre.members@[base_len + e]);
        } else {
            assert(kept2[e] == entry);
            assert(base_len + e == chan_pre.members@.len());
        }
    }
}

/// A kept-entry run still matches when the entry list grows by a dropped
/// entry and the channel stands still.
proof fn lemma_bmembers_skip(
    chan: Channel,
    base_len: int,
    users: Seq<User>,
    pre_done: Seq<(Seq<u8>, u64, u64)>,
    entry: (Seq<u8>, u64, u64),
    now: u64,
)
    requires
        find_user_rec(users, entry.0, 0) == -1,
        bmembers_match(chan, base_len, bmembers_kept(pre_done, users), now),
    ensures
        bmembers_kept(pre_done.push(entry), users) == bmembers_kept(pre_done, users),
        bmembers_match(chan, base_len, bmembers_kept(pre_done.push(entry), users), now),
{
    assert(pre_done.push(entry).drop_last() =~= pre_done);
    assert(pre_done.push(entry).last() == entry);
}

/// Handles B, a burst join: finds or creates the channel (an older
/// incoming creation time wins and wipes the topic), first answering with
/// our own burst when we still owe one for this channel, then walks the
/// member list, a comma-separated run of numnicks where a `:`-run of op
/// and voice letters sticks to the entries after it.
#[verifier::rlimit(100)]
#[verifier::spinoff_prover]
pub fn p10_cmd_b(
    core_data: &mut crate::core_data::NeroData,
    argc: usize,
    argv: &Vec<Vec<u8>>,
) -> (r: Result<(), ()>)
    requires
        crate::core_data::wf(*old(core_data)),
        argc == argv@.len(),
        forall|i: int| 0 <= i < argv@.len() ==> #[trigger] argv@[i]@.len() > 0,
    ensures
        crate::core_data::wf(*final(core_data)),
        crate::core_data::members_wf(*old(core_data)) ==> crate::core_data::members_wf(
            *final(core_data),
        ),
        r is Err <==> argc < 3,
        r is Err ==> *final(core_data) == *old(core_data),
        final(core_data).state == old(core_data).state,
        final(core_data).users@ == old(core_data).users@,
        final(core_data).servers@ == old(core_data).servers@,
        *final(core_data) == (crate::core_data::NeroData {
            channels: final(core_data).channels,
            write_buffer: final(core_data).write_buffer,
            ..*old(core_data)
        }),
        final(core_data).write_buffer@.len() >= old(core_data).write_buffer@.len(),
        forall|k: int|
            0 <= k < old(core_data).write_buffer@.len() ==> #[trigger] final(core_data).write_buffer@[k] == old(core_data).write_buffer@[k],
        r is Ok ==> ({
            let ts = ts_or_now(argv@[2]@, old(core_data).now);
            let ci = find_channel_rec(old(core_data).channels@, argv@[1]@, 0);
            &&& (ci >= 0 && old(core_data).channels@[ci].created > ts ==> final(core_data).channels@[ci].created == ts && final(core_data).channels@[ci].topic@.len() == 0
                && final(core_data).channels@[ci].topic_time == 0)
            &&& (ci >= 0 && old(core_data).channels@[ci].created <= ts ==> final(core_data).channels@[ci].created == old(core_data).channels@[ci].created && final(core_data).channels@[ci].topic@ == old(core_data).channels@[ci].topic@ && final(core_data).channels@[ci].topic_time == old(core_data).channels@[ci].topic_time)
            &&& (ci >= 0 ==> final(core_data).channels@.len() == old(core_data).channels@.len()
                && final(core_data).channels@[ci].members@.len() >= old(core_data).channels@[ci].members@.len()
                && (forall|m: int|
                    0 <= m < old(core_data).channels@[ci].members@.len()
                        ==> #[trigger] final(core_data).channels@[ci].members@[m] == old(core_data).channels@[ci].members@[m]))
            &&& (ci < 0 ==> final(core_data).channels@.len() == old(core_data).channels@.len() + 1
                && final(core_data).channels@.last().name@ == argv@[1]@ && final(core_data).channels@.last().created == ts)
            &&& (ci < 0 ==> ({
                let sc = bscan(crate::utils::seq_views(argv@), argc as int);
                let toks2 = crate::utils::split_sp(sc.0);
                let letters = tail_of(toks2[0]);
                let bits = apply_channel_mode_letters(0, letters);
                let cargs = chan_args_apply(
                    letters,
                    toks2.skip(1),
                    bits,
                    0,
                    None,
                    None,
                    None,
                    false,
                    false,
                    false,
                    false,
                );
                let newc = final(core_data).channels@.last();
                &&& (toks2.len() > 0 ==> newc.modes == bits && newc.limit == cargs.0 && opt_view(
                    newc.key,
                ) == cargs.1 && opt_view(newc.ext.upass) == cargs.2 && opt_view(newc.ext.apass)
                    == cargs.3)
                &&& (toks2.len() == 0 ==> newc.modes == 0 && newc.limit == 0 && newc.key is None
                    && newc.ext.upass is None && newc.ext.apass is None)
                &&& crate::utils::seq_views(newc.bans@) == crate::utils::split_sp(sc.1)
            }))
            &&& ((exists|e: int|
                0 <= e < old(core_data).unbursted_channels@.len()
                    && #[trigger] old(core_data).unbursted_channels@[e]@ == argv@[1]@) && ci >= 0
                ==> final(core_data).write_buffer@.len() > old(core_data).write_buffer@.len())
            &&& ({
                let chf = if ci >= 0 {
                    ci
                } else {
                    old(core_data).channels@.len() as int
                };
                let base_len = if ci >= 0 {
                    old(core_data).channels@[ci].members@.len() as int
                } else {
                    0int
                };
                let kept = bmembers_kept(
                    bmembers(bscan(crate::utils::seq_views(argv@), argc as int).2),
                    old(core_data).users@,
                );
                &&& final(core_data).channels@[chf].members@.len() == base_len + kept.len()
                &&& bmembers_match(
                    final(core_data).channels@[chf],
                    base_len,
                    kept,
                    old(core_data).now,
                )
            })
        }),
{
    if argc < 3 {
        return Err(());
    }
    let created_time: u64 = match crate::utils::parse_u64_bytes(argv[2].as_slice()) {
        Some(v) => v,
        None => core_data.now,
    };
    let mut next: usize = 3;
    let mut mode_list: Vec<u8> = Vec::new();
    let mut ban_list: Vec<u8> = Vec::new();
    let mut user_list: Vec<u8> = Vec::new();
    let mut n_modes: usize = 1;
    let ghost views = crate::utils::seq_views(argv@);
    proof {
        assert(bscan(views, argc as int) == bscan_rec(
            views,
            argc as int,
            3,
            1,
            Seq::empty(),
            Seq::empty(),
            Seq::empty(),
        ));
    }
    while next < argc
        invariant
            argc == argv@.len(),
            forall|i: int| 0 <= i < argv@.len() ==> #[trigger] argv@[i]@.len() > 0,
            3 <= next,
            1 <= n_modes,
            views == crate::utils::seq_views(argv@),
            bscan(views, argc as int) == bscan_rec(
                views,
                argc as int,
                next as int,
                n_modes as int,
                mode_list@,
                ban_list@,
                user_list@,
            ),
        decreases argc - next,
    {
        let t0 = argv[next][0];
        proof {
            assert(views[next as int] == argv@[next as int]@);
        }
        if t0 == 43 {
            let tl = argv[next].len();
            let mut cc: usize = 0;
            let mut ii: usize = 1;
            while ii < tl
                invariant
                    argc == argv@.len(),
                    next < argc,
                    views == crate::utils::seq_views(argv@),
                    tl == argv@[next as int]@.len(),
                    1 <= ii <= tl || tl == 0,
                    cc < ii,
                    bscan_count(views[next as int], 1) == cc + bscan_count(
                        views[next as int],
                        ii as int,
                    ),
                decreases tl - ii,
            {
                let c = argv[next][ii];
                if c == 107 || c == 108 || c == 65 || c == 85 {
                    cc += 1;
                }
                ii += 1;
            }
            proof {
                assert(bscan_count(views[next as int], tl as int) == 0);
            }
            let nm: usize = if n_modes > argc - next || cc > argc - next - n_modes {
                argc - next
            } else {
                n_modes + cc
            };
            mode_list = crate::utils::unsplit_string(argv.as_slice(), argc, next, nm);
            n_modes = nm;
            next += nm;
        } else if t0 == 37 {
            let ghost told = ban_list@;
            ban_list = bytes_of(
                vstd::slice::slice_subrange(argv[next].as_slice(), 1, argv[next].len()),
            );
            proof {
                assert(ban_list@ =~= views[next as int].skip(1));
            }
            next += 1;
        } else {
            user_list = bytes_of(argv[next].as_slice());
            next += 1;
        }
    }
    proof {
        assert(bscan(views, argc as int) == (mode_list@, ban_list@, user_list@));
    }
    if crate::utils::vec_contains_bytes(&core_data.unbursted_channels, argv[1].as_slice()) {
        match find_channel(core_data, argv[1].as_slice()) {
            Some(ci) => {
                p10_burst_our_channel(core_data, created_time, ci);
            },
            None => {},
        }
    }
    let ghost pre_add = *core_data;
    let pre_chan_len = core_data.channels.len();
    let chan_name = &argv[1];
    proof {
        assert(pre_add.channels@.len() == pre_chan_len as int);
        assert(chan_name@ == argv@[1]@);
    }
    let ci: usize = match p10_add_channel(
        core_data,
        chan_name.as_slice(),
        created_time,
        mode_list.as_slice(),
        ban_list.as_slice(),
    ) {
        Some(c) => c,
        None => {
            return Err(());
        },
    };
    proof {
        lemma_find_channel_rec(pre_add.channels@, argv@[1]@, 0);
        lemma_find_channel_rec(old(core_data).channels@, argv@[1]@, 0);
        assert(pre_add.channels@ == old(core_data).channels@);
        let fci = find_channel_rec(old(core_data).channels@, argv@[1]@, 0);
        if fci >= 0 {
            assert(ci as int == fci);
            assert(core_data.channels@[ci as int].members@
                == old(core_data).channels@[fci].members@);
        } else {
            assert(ci as int == old(core_data).channels@.len());
            assert(core_data.channels@[ci as int].members@.len() == 0);
        }
    }
    let ghost mid = *core_data;
    let mut member_modes: u64 = 0;
    let mut oplevel: u64 = 0;
    let mut userbuf: Vec<u8> = Vec::new();
    let mut got_colon: bool = false;
    let ul = user_list.len();
    let mut index: usize = 0;
    let ghost gul = user_list@;
    let ghost mut done: Seq<(Seq<u8>, u64, u64)> = Seq::empty();
    proof {
        assert(userbuf@ =~= Seq::<u8>::empty());
        assert(bmembers(gul) == done + bmembers_rec(gul, 0, userbuf@, 0, 0, false));
        assert(bmembers_kept(done, mid.users@).len() == 0);
        assert(bmembers_match(
            core_data.channels@[ci as int],
            mid.channels@[ci as int].members@.len() as int,
            bmembers_kept(done, mid.users@),
            mid.now,
        ));
    }
    while index < ul
        invariant
            crate::core_data::wf(*core_data),
            crate::core_data::members_wf(mid) ==> crate::core_data::members_wf(*core_data),
            ul == user_list@.len(),
            gul == user_list@,
            index <= ul,
            ci < mid.channels@.len(),
            core_data.channels@.len() == mid.channels@.len(),
            forall|c: int|
                0 <= c < mid.channels@.len() && c != ci ==> #[trigger] core_data.channels@[c]
                    == mid.channels@[c],
            core_data.channels@[ci as int] == (Channel {
                members: core_data.channels@[ci as int].members,
                ..mid.channels@[ci as int]
            }),
            core_data.channels@[ci as int].members@.len() >= mid.channels@[ci as int].members@.len(),
            forall|m: int|
                0 <= m < mid.channels@[ci as int].members@.len()
                    ==> #[trigger] core_data.channels@[ci as int].members@[m]
                    == mid.channels@[ci as int].members@[m],
            *core_data == (crate::core_data::NeroData {
                channels: core_data.channels,
                ..mid
            }),
            argc == argv@.len(),
            gul == bscan(crate::utils::seq_views(argv@), argc as int).2,
            mid.users@ == old(core_data).users@,
            mid.now == old(core_data).now,
            ci as int == (if find_channel_rec(old(core_data).channels@, argv@[1]@, 0) >= 0 {
                find_channel_rec(old(core_data).channels@, argv@[1]@, 0)
            } else {
                old(core_data).channels@.len() as int
            }),
            mid.channels@[ci as int].members@.len() == (if find_channel_rec(
                old(core_data).channels@,
                argv@[1]@,
                0,
            ) >= 0 {
                old(core_data).channels@[find_channel_rec(
                    old(core_data).channels@,
                    argv@[1]@,
                    0,
                )].members@.len() as int
            } else {
                0int
            }),
            bmembers(gul) == done + bmembers_rec(
                gul,
                index as int,
                userbuf@,
                member_modes,
                oplevel,
                got_colon,
            ),
            core_data.channels@[ci as int].members@.len() == mid.channels@[ci as int].members@.len()
                + bmembers_kept(done, mid.users@).len(),
            bmembers_match(
                core_data.channels@[ci as int],
                mid.channels@[ci as int].members@.len() as int,
                bmembers_kept(done, mid.users@),
                mid.now,
            ),
        decreases ul - index,
    {
        let ghost s_buf = userbuf@;
        let ghost s_modes = member_modes;
        let ghost s_opl = oplevel;
        let ghost s_colon = got_colon;
        let ii = user_list[index];
        let is_last = index + 1 == ul;
        if ii == 44 || (index > 0 && is_last) {
            if is_last {
                if got_colon {
                    if ii == 111 {
                        member_modes = member_modes | MMODE_CHANOP;
                    } else if ii == 118 {
                        member_modes = member_modes | MMODE_VOICE;
                    } else if 48 <= ii && ii <= 57 {
                        oplevel = 999;
                    }
                } else {
                    if ii != 44 {
                        userbuf.push(ii);
                    } else {
                        userbuf.push(ii);
                    }
                }
            }
            let ghost entry = (userbuf@, member_modes, oplevel);
            proof {
                assert(bmembers_rec(gul, index as int, s_buf, s_modes, s_opl, s_colon)
                    == seq![entry] + bmembers_rec(
                    gul,
                    index + 1,
                    Seq::empty(),
                    entry.1,
                    entry.2,
                    false,
                ));
            }
            let ghost pre_m = *core_data;
            let ghost pre_done = done;
            proof {
                done = done.push(entry);
                assert(done.drop_last() =~= pre_done);
                assert(done.last() == entry);
            }
            let mr = p10_add_channel_member(core_data, ci, userbuf.as_slice());
            match mr {
                Ok(mi) => {
                    let ghost pre_set = *core_data;
                    core_data.channels[ci].members[mi].base.modes = member_modes;
                    core_data.channels[ci].members[mi].ext.oplevel = oplevel;
                    proof {
                        crate::core_data::lemma_wf_channels_cosmetic(pre_set, *core_data);
                        if crate::core_data::members_wf(pre_set) {
                            crate::core_data::lemma_members_wf_carry(pre_set, *core_data);
                        }
                        assert(core_data.channels@[ci as int] == (Channel {
                            members: core_data.channels@[ci as int].members,
                            ..mid.channels@[ci as int]
                        }));
                        assert(find_user_rec(mid.users@, entry.0, 0) != -1);
                        assert(core_data.channels@[ci as int].members@
                            =~= pre_set.channels@[ci as int].members@.update(
                            mi as int,
                            core_data.channels@[ci as int].members@[mi as int],
                        ));
                        assert(forall|k: int|
                            0 <= k < pre_m.channels@[ci as int].members@.len()
                                ==> #[trigger] core_data.channels@[ci as int].members@[k]
                                == pre_m.channels@[ci as int].members@[k]);
                        lemma_bmembers_step(
                            pre_m.channels@[ci as int],
                            core_data.channels@[ci as int],
                            mid.channels@[ci as int].members@.len() as int,
                            mid.users@,
                            pre_done,
                            entry,
                            mid.now,
                        );
                    }
                },
                Err(_) => {
                    proof {
                        assert(find_user_rec(mid.users@, entry.0, 0) == -1);
                        lemma_bmembers_skip(
                            core_data.channels@[ci as int],
                            mid.channels@[ci as int].members@.len() as int,
                            mid.users@,
                            pre_done,
                            entry,
                            mid.now,
                        );
                    }
                },
            }
            userbuf = Vec::new();
            got_colon = false;
            proof {
                assert(userbuf@ =~= Seq::<u8>::empty());
            }
        } else if ii == 58 {
            got_colon = true;
            member_modes = 0;
            oplevel = 0;
            proof {
                assert(bmembers_rec(gul, index as int, s_buf, s_modes, s_opl, s_colon)
                    == bmembers_rec(gul, index + 1, s_buf, 0, 0, true));
            }
        } else if got_colon {
            if ii == 111 {
                member_modes = member_modes | MMODE_CHANOP;
            } else if ii == 118 {
                member_modes = member_modes | MMODE_VOICE;
            } else if 48 <= ii && ii <= 57 {
                oplevel = 999;
            }
            proof {
                assert(bmembers_rec(gul, index as int, s_buf, s_modes, s_opl, s_colon)
                    == bmembers_rec(gul, index + 1, s_buf, member_modes, oplevel, true));
            }
        } else {
            userbuf.push(ii);
            proof {
                assert(bmembers_rec(gul, index as int, s_buf, s_modes, s_opl, s_colon)
                    == bmembers_rec(gul, index + 1, userbuf@, s_modes, s_opl, s_colon));
            }
        }
        index += 1;
    }
    proof {
        assert(bmembers_rec(gul, ul as int, userbuf@, member_modes, oplevel, got_colon)
            == Seq::<(Seq<u8>, u64, u64)>::empty());
        assert(bmembers(gul) =~= done);
        assert(bmembers_kept(bmembers(gul), old(core_data).users@) == bmembers_kept(
            done,
            mid.users@,
        ));
    }
    Ok(())
}



// --- The protocol engine's entry points ---

impl P10 {
    pub fn new() -> (r: Self)
        ensures
            r.skew == 0,
    {
        P10 { skew: 0 }
    }

    /// Copies the configured numeric prefix onto the local server.
    pub fn setup(&self, core_data: &mut crate::core_data::NeroData)
        requires
            crate::core_data::wf(*old(core_data)),
        ensures
            crate::core_data::wf(*final(core_data)),
            crate::core_data::members_wf(*old(core_data)) ==> crate::core_data::members_wf(
                *final(core_data),
            ),
            old(core_data).servers@[old(core_data).me as int].ext.numeric@.len() == 0 ==> final(core_data).servers@[final(core_data).me as int].ext.numeric@ == old(core_data).config.uplink.numeric->Some_0@,
            final(core_data).me == old(core_data).me,
            final(core_data).state == old(core_data).state,
            final(core_data).users@ == old(core_data).users@,
            final(core_data).channels@ == old(core_data).channels@,
            final(core_data).config == old(core_data).config,
    {
        core_data.setup();
    }

    /// Opens the link: in the connecting phase, queues the PASS line with
    /// the configured send password and our SERVER introduction, and moves
    /// to the bursting phase.
    pub fn start_handshake(&mut self, core_data: &mut crate::core_data::NeroData)
        requires
            crate::core_data::wf(*old(core_data)),
        ensures
            crate::core_data::wf(*final(core_data)),
            crate::core_data::members_wf(*old(core_data)) ==> crate::core_data::members_wf(
                *final(core_data),
            ),
            crate::net::state_rank(final(core_data).state) >= crate::net::state_rank(
                old(core_data).state,
            ),
            old(core_data).state != crate::net::ConnectionState::Connecting ==> *final(core_data)
                == *old(core_data),
            old(core_data).state == crate::net::ConnectionState::Connecting ==> ({
                &&& final(core_data).state == crate::net::ConnectionState::Bursting
                &&& *final(core_data) == (crate::core_data::NeroData {
                    state: final(core_data).state,
                    write_buffer: final(core_data).write_buffer,
                    ..*old(core_data)
                })
                &&& final(core_data).write_buffer@.len() == old(core_data).write_buffer@.len() + 2
                &&& forall|k: int|
                    0 <= k < old(core_data).write_buffer@.len() ==> #[trigger] final(core_data).write_buffer@[k] == old(core_data).write_buffer@[k]
                &&& final(core_data).write_buffer@[old(core_data).write_buffer@.len() as int]@
                    == seq![80u8, 65u8, 83u8, 83u8, 32u8, 58u8] + old(core_data).config.uplink.send_pass@
                &&& final(core_data).write_buffer@.last()@ == seq![
                    83u8,
                    69u8,
                    82u8,
                    86u8,
                    69u8,
                    82u8,
                    32u8,
                ] + old(core_data).config.uplink.hostname@ + seq![32u8, 49u8, 32u8]
                    + crate::utils::dec_digits(old(core_data).now as int) + seq![32u8]
                    + crate::utils::dec_digits(old(core_data).now as int) + seq![
                    32u8,
                    74u8,
                    49u8,
                    48u8,
                    32u8,
                ] + old(core_data).config.uplink.numeric->Some_0@ + seq![
                    65u8,
                    93u8,
                    93u8,
                    32u8,
                    43u8,
                    115u8,
                    54u8,
                    32u8,
                    58u8,
                ] + old(core_data).config.uplink.description@
            }),
    {
        if matches!(core_data.state, crate::net::ConnectionState::Connecting) {
            core_data.state = crate::net::ConnectionState::Bursting;
            let mut pass_line: Vec<u8> = Vec::new();
            pass_line.push(80);
            pass_line.push(65);
            pass_line.push(83);
            pass_line.push(83);
            pass_line.push(32);
            pass_line.push(58);
            pass_line.extend_from_slice(core_data.config.uplink.send_pass.as_slice());
            let mut server_line: Vec<u8> = Vec::new();
            server_line.push(83);
            server_line.push(69);
            server_line.push(82);
            server_line.push(86);
            server_line.push(69);
            server_line.push(82);
            server_line.push(32);
            server_line.extend_from_slice(core_data.config.uplink.hostname.as_slice());
            server_line.push(32);
            server_line.push(49);
            server_line.push(32);
            let epoch = crate::utils::u64_to_dec(core_data.now);
            server_line.extend_from_slice(epoch.as_slice());
            server_line.push(32);
            server_line.extend_from_slice(epoch.as_slice());
            server_line.push(32);
            server_line.push(74);
            server_line.push(49);
            server_line.push(48);
            server_line.push(32);
            let numeric = p10_get_numeric(core_data);
            server_line.extend_from_slice(numeric.as_slice());
            server_line.push(65);
            server_line.push(93);
            server_line.push(93);
            server_line.push(32);
            server_line.push(43);
            server_line.push(115);
            server_line.push(54);
            server_line.push(32);
            server_line.push(58);
            server_line.extend_from_slice(core_data.config.uplink.description.as_slice());
            let ghost prev = *core_data;
            core_data.add_to_buffer(pass_line.as_slice());
            core_data.add_to_buffer(server_line.as_slice());
            proof {
                crate::core_data::lemma_same_store(prev, *core_data);
                assert(pass_line@ =~= seq![80u8, 65u8, 83u8, 83u8, 32u8, 58u8] + old(core_data).config.uplink.send_pass@);
                assert(server_line@ =~= seq![83u8, 69u8, 82u8, 86u8, 69u8, 82u8, 32u8] + old(core_data).config.uplink.hostname@ + seq![32u8, 49u8, 32u8] + crate::utils::dec_digits(
                    old(core_data).now as int,
                ) + seq![32u8] + crate::utils::dec_digits(old(core_data).now as int) + seq![
                    32u8,
                    74u8,
                    49u8,
                    48u8,
                    32u8,
                ] + old(core_data).config.uplink.numeric->Some_0@ + seq![
                    65u8,
                    93u8,
                    93u8,
                    32u8,
                    43u8,
                    115u8,
                    54u8,
                    32u8,
                    58u8,
                ] + old(core_data).config.uplink.description@);
            }
        }
    }

    /// Looks a user up by numnick and hands back a copy of its
    /// protocol-independent part.
    pub fn find_user_by_numeric(&self, users: &Vec<User>, numeric: &[u8]) -> (r: Option<
        crate::user::BaseUser,
    >)
        ensures
            r is Some <==> find_user_rec(users@, numeric@, 0) != -1,
            r matches Some(b) ==> ({
                let u = users@[find_user_rec(users@, numeric@, 0)];
                b.nick@ == u.base.nick@ && b.ident@ == u.base.ident@ && b.host@ == u.base.host@
                    && b.ip@ == u.base.ip@ && b.gecos@ == u.base.gecos@ && b.modes == u.base.modes
                    && b.account@ == u.base.account@ && b.away_message@ == u.base.away_message@
            }),
    {
        let n = users.len();
        let mut i: usize = 0;
        while i < n
            invariant
                n == users@.len(),
                i <= n,
                find_user_rec(users@, numeric@, 0) == find_user_rec(users@, numeric@, i as int),
            decreases n - i,
        {
            if crate::utils::bytes_eq(users[i].ext.numeric.as_slice(), numeric) {
                return Some(crate::user::copy_base_user(&users[i].base));
            }
            i += 1;
        }
        None
    }

    /// Sends a private message from a locally owned user.
    pub fn send_privmsg(
        &self,
        users: &Vec<User>,
        write_buffer: &mut Vec<Vec<u8>>,
        source: &crate::user::BaseUser,
        target: &[u8],
        message: &[u8],
    )
        ensures
            ({
                let si = find_nick_rec(users@, source.nick@, 0);
                if si == -1 || users@[si].ext.numeric@.len() == 0 {
                    final(write_buffer)@ == old(write_buffer)@
                } else {
                    let ti = find_nick_rec(users@, target@, 0);
                    let send_target = if ti >= 0 {
                        users@[ti].ext.numeric@
                    } else {
                        target@
                    };
                    chunks_appended(
                        old(write_buffer)@,
                        final(write_buffer)@,
                        users@[si].ext.numeric@,
                        send_target,
                        80u8,
                        message@,
                    )
                }
            }),
    {
        send_textmessage(users, write_buffer, source, target, message, true);
    }

    /// Sends a notice from a locally owned user.
    pub fn send_notice(
        &self,
        users: &Vec<User>,
        write_buffer: &mut Vec<Vec<u8>>,
        source: &crate::user::BaseUser,
        target: &[u8],
        message: &[u8],
    )
        ensures
            ({
                let si = find_nick_rec(users@, source.nick@, 0);
                if si == -1 || users@[si].ext.numeric@.len() == 0 {
                    final(write_buffer)@ == old(write_buffer)@
                } else {
                    let ti = find_nick_rec(users@, target@, 0);
                    let send_target = if ti >= 0 {
                        users@[ti].ext.numeric@
                    } else {
                        target@
                    };
                    chunks_appended(
                        old(write_buffer)@,
                        final(write_buffer)@,
                        users@[si].ext.numeric@,
                        send_target,
                        79u8,
                        message@,
                    )
                }
            }),
    {
        send_textmessage(users, write_buffer, source, target, message, false);
    }

    /// Materializes a plugin's pseudo-user: a locally owned user with a
    /// fresh numnick and the service modes, joined to the bot's channels,
    /// which are created as needed.  Nothing happens when the local server
    /// has no numeric prefix yet, its numnick counter is spent, or the
    /// allocated numnick is already taken.
    #[verifier::rlimit(100)]
    pub fn add_local_bot(
        &self,
        core_data: &mut crate::core_data::NeroData,
        bot: &crate::plugin::Bot,
    )
        requires
            crate::core_data::wf(*old(core_data)),
        ensures
            crate::core_data::wf(*final(core_data)),
            crate::core_data::members_wf(*old(core_data)) ==> crate::core_data::members_wf(
                *final(core_data),
            ),
            final(core_data).users@.len() >= old(core_data).users@.len(),
            final(core_data).users@.len() <= old(core_data).users@.len() + 1,
            final(core_data).state == old(core_data).state,
            final(core_data).write_buffer@ == old(core_data).write_buffer@,
            ({
                let me_numeric = old(core_data).servers@[old(core_data).me as int].ext.numeric@;
                let accum = old(core_data).servers@[old(core_data).me as int].ext.numeric_accum;
                &&& (me_numeric.len() == 0 || accum == u64::MAX ==> *final(core_data) == *old(core_data))
                &&& (me_numeric.len() > 0 && accum < u64::MAX && !(exists|i: int|
                    0 <= i < old(core_data).users@.len() && numeric_allocated(
                        me_numeric,
                        accum,
                        #[trigger] old(core_data).users@[i].ext.numeric@,
                    )) ==> ({
                    let u = final(core_data).users@[old(core_data).users@.len() as int];
                    &&& final(core_data).users@.len() == old(core_data).users@.len() + 1
                    &&& (forall|k: int|
                        0 <= k < old(core_data).users@.len() ==> #[trigger] final(core_data).users@[k] == old(core_data).users@[k])
                    &&& u.base.nick@ == bot.nick@
                    &&& u.base.ident@ == bot.ident@
                    &&& u.base.host@ == bot.hostname@
                    &&& u.base.gecos@ == bot.gecos@
                    &&& u.base.ip@ == seq![
                        50u8,
                        53u8,
                        53u8,
                        46u8,
                        50u8,
                        53u8,
                        53u8,
                        46u8,
                        50u8,
                        53u8,
                        53u8,
                        46u8,
                        50u8,
                        53u8,
                        53u8,
                    ]
                    &&& u.base.modes == apply_user_mode_letters(
                        0,
                        seq![43u8, 105u8, 111u8, 107u8],
                        true,
                    )
                    &&& u.uplink == old(core_data).me
                    &&& numeric_allocated(me_numeric, accum, u.ext.numeric@)
                    &&& (forall|bc: int|
                        #![trigger bot.channels@[bc]]
                        0 <= bc < bot.channels@.len() ==> bot_joined(
                            *final(core_data),
                            bot.channels@[bc].name@,
                            u.ext.numeric@,
                            bot_member_bits(bot.channels@[bc].umodes@),
                        ))
                }))
            }),
    {
        let me = core_data.me;
        if core_data.servers[me].ext.numeric.len() == 0 {
            return ;
        }
        if core_data.servers[me].ext.numeric_accum == u64::MAX {
            return ;
        }
        let ghost me_numeric = core_data.servers@[me as int].ext.numeric@;
        let ghost accum0 = core_data.servers@[me as int].ext.numeric_accum;
        let numeric = get_next_numeric(core_data);
        proof {
            assert(numeric@.take(me_numeric.len() as int) =~= me_numeric);
            assert(numeric@.skip(me_numeric.len() as int) =~= numeric@.subrange(
                numeric@.len() - 3,
                numeric@.len() as int,
            ));
            assert(numeric_allocated(me_numeric, accum0, numeric@));
        }
        match find_user_numeric(core_data, numeric.as_slice()) {
            Some(fi) => {
                proof {
                    lemma_find_user_rec(core_data.users@, numeric@, 0);
                    assert(old(core_data).users@[find_user_rec(core_data.users@, numeric@, 0)].ext.numeric@ == numeric@);
                }
                return ;
            },
            None => {},
        }
        proof {
            lemma_find_user_rec(core_data.users@, numeric@, 0);
        }
        let mut user_node = User::new(
            bot.nick.as_slice(),
            bot.ident.as_slice(),
            bot.hostname.as_slice(),
            me,
        );
        let mut ip: Vec<u8> = Vec::new();
        ip.push(50);
        ip.push(53);
        ip.push(53);
        ip.push(46);
        ip.push(50);
        ip.push(53);
        ip.push(53);
        ip.push(46);
        ip.push(50);
        ip.push(53);
        ip.push(53);
        ip.push(46);
        ip.push(50);
        ip.push(53);
        ip.push(53);
        user_node.base.ip = ip;
        user_node.base.gecos = bytes_of(bot.gecos.as_slice());
        user_node.ext.numeric = bytes_of(numeric.as_slice());
        let mut modes: Vec<u8> = Vec::new();
        modes.push(43);
        modes.push(105);
        modes.push(111);
        modes.push(107);
        proof {
            assert(modes@ =~= seq![43u8, 105u8, 111u8, 107u8]);
        }
        p10_set_user_modes(&mut user_node, modes.as_slice());
        let ghost prev = *core_data;
        core_data.servers[me].users.push(bytes_of(numeric.as_slice()));
        core_data.users.push(user_node);
        proof {
            let nicks = crate::core_data::unicks(prev);
            let owners = crate::core_data::uowners(prev);
            let lists = crate::core_data::slists(prev);
            assert forall|k: int| 0 <= k < nicks.len() implies #[trigger] nicks[k] != numeric@ by {
                assert(prev.users@[k].ext.numeric@ != numeric@);
            }
            assert(!nicks.contains(numeric@));
            crate::core_data::lemma_store_add(nicks, owners, lists, numeric@, me as int);
            assert(crate::core_data::unicks(*core_data) =~= nicks.push(numeric@));
            assert(crate::core_data::uowners(*core_data) =~= owners.push(me as int));
            assert(crate::core_data::slists(*core_data) =~~= lists.update(
                me as int,
                lists[me as int].push(numeric@),
            ));
            if crate::core_data::members_wf(prev) {
                assert forall|c: int, m: int|
                    0 <= c < core_data.channels@.len() && 0 <= m
                        < core_data.channels@[c].members@.len() implies crate::core_data::unicks(
                    *core_data,
                ).contains(#[trigger] core_data.channels@[c].members@[m].user_numeric@) by {
                    let idx = choose|idx: int|
                        0 <= idx < nicks.len() && #[trigger] nicks[idx]
                            == prev.channels@[c].members@[m].user_numeric@;
                    assert(crate::core_data::unicks(*core_data)[idx]
                        == core_data.channels@[c].members@[m].user_numeric@);
                }
            }
        }
        let ghost pushed = *core_data;
        proof {
            assert(pushed.users@.last().ext.numeric@ == numeric@);
            assert(me_numeric == old(core_data).servers@[old(core_data).me as int].ext.numeric@);
            assert(accum0 == old(core_data).servers@[old(core_data).me as int].ext.numeric_accum);
            crate::utils::lemma_take_until_sp_exact(seq![43u8, 105u8, 111u8, 107u8], 4);
            assert(seq![43u8, 105u8, 111u8, 107u8].take(4) =~= seq![43u8, 105u8, 111u8, 107u8]);
            assert(pushed.users@.last().base.ip@ =~= seq![
                50u8,
                53u8,
                53u8,
                46u8,
                50u8,
                53u8,
                53u8,
                46u8,
                50u8,
                53u8,
                53u8,
                46u8,
                50u8,
                53u8,
                53u8,
            ]);
        }
        let nchan = bot.channels.len();
        let mut bc: usize = 0;
        while bc < nchan
            invariant
                crate::core_data::wf(*core_data),
                crate::core_data::members_wf(*old(core_data)) ==> crate::core_data::members_wf(
                    *core_data,
                ),
                nchan == bot.channels@.len(),
                bc <= nchan,
                core_data.users@ == pushed.users@,
                pushed.users@.len() == old(core_data).users@.len() + 1,
                forall|k: int|
                    0 <= k < old(core_data).users@.len() ==> #[trigger] pushed.users@[k] == old(core_data).users@[k],
                pushed.users@.last().ext.numeric@ == numeric@,
                pushed.users@.last().base.nick@ == bot.nick@,
                pushed.users@.last().base.ident@ == bot.ident@,
                pushed.users@.last().base.host@ == bot.hostname@,
                pushed.users@.last().base.gecos@ == bot.gecos@,
                pushed.users@.last().base.ip@ == seq![
                    50u8,
                    53u8,
                    53u8,
                    46u8,
                    50u8,
                    53u8,
                    53u8,
                    46u8,
                    50u8,
                    53u8,
                    53u8,
                    46u8,
                    50u8,
                    53u8,
                    53u8,
                ],
                pushed.users@.last().base.modes == apply_user_mode_letters(
                    0,
                    seq![43u8, 105u8, 111u8, 107u8],
                    true,
                ),
                pushed.users@.last().uplink == old(core_data).me,
                numeric_allocated(
                    old(core_data).servers@[old(core_data).me as int].ext.numeric@,
                    old(core_data).servers@[old(core_data).me as int].ext.numeric_accum,
                    numeric@,
                ),
                numeric_allocated(
                    old(core_data).servers@[old(core_data).me as int].ext.numeric@,
                    old(core_data).servers@[old(core_data).me as int].ext.numeric_accum,
                    pushed.users@.last().ext.numeric@,
                ),
                core_data.state == old(core_data).state,
                core_data.write_buffer@ == old(core_data).write_buffer@,
                forall|bc2: int|
                    #![trigger bot.channels@[bc2]]
                    0 <= bc2 < bc ==> bot_joined(
                        *core_data,
                        bot.channels@[bc2].name@,
                        numeric@,
                        bot_member_bits(bot.channels@[bc2].umodes@),
                    ),
            decreases nchan - bc,
        {
            let ghost iter0 = *core_data;
            let timestamp = core_data.now;
            let chans_len = core_data.channels.len();
            proof {
                assert(iter0.channels@.len() == chans_len as int);
            }
            let bchan = &bot.channels[bc];
            proof {
                assert(bchan.name@ == bot.channels@[bc as int].name@);
            }
            let added = p10_add_channel(
                core_data,
                bchan.name.as_slice(),
                timestamp,
                bchan.chanmodes.as_slice(),
                &[],
            );
            let ghost mid_a = *core_data;
            proof {
                assert(added is Some);
                assert(iter0.channels@.len() <= core_data.channels@.len());
            }
            match added {
                Some(ci) => {
                    proof {
                        lemma_find_channel_rec(iter0.channels@, bot.channels@[bc as int].name@, 0);
                        lemma_find_user_rec(core_data.users@, numeric@, 0);
                        if find_user_rec(core_data.users@, numeric@, 0) == -1 {
                            assert(core_data.users@[pushed.users@.len() - 1].ext.numeric@
                                == numeric@);
                            assert(false);
                        }
                    }
                    proof {
                        let gname = bot.channels@[bc as int].name@;
                        let fci = find_channel_rec(iter0.channels@, gname, 0);
                        lemma_find_channel_rec(iter0.channels@, gname, 0);
                        assert(added == Some(ci));
                        if fci >= 0 {
                            assert(added == Some(fci as usize));
                            assert(ci as int == fci);
                            assert(mid_a.channels@[fci].name@ == iter0.channels@[fci].name@);
                            assert(lower_seq(iter0.channels@[fci].name@) == lower_seq(gname));
                            assert(lower_seq(mid_a.channels@[ci as int].name@) == lower_seq(gname));
                        } else {
                            assert(added == Some(iter0.channels@.len() as usize));
                            assert(mid_a.channels@.last().name@ == gname);
                            assert(mid_a.channels@[ci as int].name@ == gname);
                        }
                    }
                    let mr = p10_add_channel_member(core_data, ci, numeric.as_slice());
                    match mr {
                        Ok(mi) => {
                            let ghost pre_set = *core_data;
                            let ghost gum = bot.channels@[bc as int].umodes@;
                            let nu = bot.channels[bc].umodes.len();
                            let mut um: usize = 0;
                            let mut mmodes = core_data.channels[ci].members[mi].base.modes;
                            let ghost m0 = mmodes;
                            proof {
                                assert(gum.skip(0) =~= gum);
                            }
                            while um < nu
                                invariant
                                    bc < bot.channels@.len(),
                                    gum == bot.channels@[bc as int].umodes@,
                                    nu == gum.len(),
                                    um <= nu,
                                    m0 | bot_member_bits(gum) == mmodes | bot_member_bits(
                                        gum.skip(um as int),
                                    ),
                                decreases nu - um,
                            {
                                let ghost s_mm = mmodes;
                                let mc = bot.channels[bc].umodes[um];
                                if mc == 111 {
                                    mmodes = mmodes | MMODE_CHANOP;
                                } else if mc == 118 {
                                    mmodes = mmodes | MMODE_VOICE;
                                }
                                proof {
                                    assert(gum.skip(um as int)[0] == gum[um as int]);
                                    assert(gum.skip(um as int).skip(1) =~= gum.skip(um + 1));
                                    let b: u64 = if gum[um as int] == 111 {
                                        MMODE_CHANOP
                                    } else if gum[um as int] == 118 {
                                        MMODE_VOICE
                                    } else {
                                        0
                                    };
                                    let rest: u64 = bot_member_bits(gum.skip(um + 1));
                                    assert((s_mm | b) | rest == s_mm | (b | rest)) by (bit_vector);
                                    assert(s_mm | (0u64 | rest) == s_mm | rest) by (bit_vector);
                                }
                                um += 1;
                            }
                            proof {
                                assert(gum.skip(nu as int) =~= Seq::<u8>::empty());
                                let bits: u64 = bot_member_bits(gum);
                                let mm0: u64 = m0;
                                let mmf: u64 = mmodes;
                                assert(mmf | 0u64 == mmf) by (bit_vector);
                                assert(mm0 | bits == mmf);
                                assert(mm0 | bits == mmf ==> mmf & bits == bits) by (bit_vector);
                                assert(mmodes & bot_member_bits(gum) == bot_member_bits(gum));
                            }
                            core_data.channels[ci].members[mi].base.modes = mmodes;
                            proof {
                                crate::core_data::lemma_wf_channels_cosmetic(pre_set, *core_data);
                                if crate::core_data::members_wf(pre_set) {
                                    crate::core_data::lemma_members_wf_carry(pre_set, *core_data);
                                }
                                assert(core_data.channels@ =~= pre_set.channels@.update(
                                    ci as int,
                                    core_data.channels@[ci as int],
                                ));
                                assert(core_data.channels@[ci as int].members@
                                    =~= pre_set.channels@[ci as int].members@.update(
                                    mi as int,
                                    core_data.channels@[ci as int].members@[mi as int],
                                ));
                                assert(core_data.channels@[ci as int].members@[mi as int].user_numeric@
                                    == numeric@);
                                assert(core_data.channels@[ci as int].members@[mi as int].base.modes
                                    == mmodes);
                                assert(core_data.channels@[ci as int].members@[mi as int].base.modes
                                    & bot_member_bits(bot.channels@[bc as int].umodes@)
                                    == bot_member_bits(bot.channels@[bc as int].umodes@));
                                assert(core_data.channels@[ci as int].name@
                                    == pre_set.channels@[ci as int].name@);
                                assert(lower_seq(core_data.channels@[ci as int].name@)
                                    == lower_seq(bot.channels@[bc as int].name@));
                                assert(bot_joined(
                                    *core_data,
                                    bot.channels@[bc as int].name@,
                                    numeric@,
                                    bot_member_bits(bot.channels@[bc as int].umodes@),
                                ));
                            }
                        },
                        Err(_) => {
                            proof {
                                assert(false);
                            }
                        },
                    }
                },
                None => {
                    proof {
                        assert(false);
                    }
                },
            }
            bc += 1;
            proof {
                assert forall|bc2: int|
                    #![trigger bot.channels@[bc2]]
                    0 <= bc2 < bc implies bot_joined(
                    *core_data,
                    bot.channels@[bc2].name@,
                    numeric@,
                    bot_member_bits(bot.channels@[bc2].umodes@),
                ) by {
                    if bc2 < bc - 1 {
                        assert(bot_joined(
                            iter0,
                            bot.channels@[bc2].name@,
                            numeric@,
                            bot_member_bits(bot.channels@[bc2].umodes@),
                        ));
                        let (c2, m) = choose|c2: int, m: int|
                            #![trigger iter0.channels@[c2].members@[m]]
                            0 <= c2 < iter0.channels@.len() && 0 <= m
                                < iter0.channels@[c2].members@.len() && lower_seq(
                                iter0.channels@[c2].name@,
                            ) == lower_seq(bot.channels@[bc2].name@)
                                && iter0.channels@[c2].members@[m].user_numeric@ == numeric@
                                && iter0.channels@[c2].members@[m].base.modes & bot_member_bits(
                                bot.channels@[bc2].umodes@,
                            ) == bot_member_bits(bot.channels@[bc2].umodes@);
                        assert(0 <= c2 < mid_a.channels@.len());
                        assert(mid_a.channels@[c2].name@ == iter0.channels@[c2].name@);
                        assert(mid_a.channels@[c2].members@[m]
                            == iter0.channels@[c2].members@[m]);
                        assert(0 <= c2 < core_data.channels@.len());
                        assert(core_data.channels@[c2].name@ == mid_a.channels@[c2].name@);
                        assert(core_data.channels@[c2].members@[m]
                            == mid_a.channels@[c2].members@[m]);
                    }
                }
            }
        }
        proof {
            assert(forall|bc2: int|
                #![trigger bot.channels@[bc2]]
                0 <= bc2 < bot.channels@.len() ==> bot_joined(
                    *core_data,
                    bot.channels@[bc2].name@,
                    numeric@,
                    bot_member_bits(bot.channels@[bc2].umodes@),
                ));
        }
    }
}





/// The tokens the dispatcher works from.
pub open spec fn proc_tokens(message: Seq<u8>) -> Seq<Seq<u8>> {
    wire_tokens(message, 200, true)
}

/// The index of the command token: everything after an origin token, which
/// is there once the uplink is known or the first token is short.
pub open spec fn proc_cmd_idx(pre: crate::core_data::NeroData, toks: Seq<Seq<u8>>) -> int {
    if toks[0].len() < 3 || pre.uplink is Some {
        1
    } else {
        0
    }
}

/// The origin the dispatcher resolves from the first token: a long-form
/// prefix loses its last byte; a short token is looked up as a server
/// numeric, anything else as a user numnick; an unknown origin is empty.
pub open spec fn proc_origin(pre: crate::core_data::NeroData, toks: Seq<Seq<u8>>) -> Seq<u8> {
    let t0 = toks[0];
    if t0[0] == 58 {
        t0.take(t0.len() - 1)
    } else if t0.len() < 3 {
        let j = find_server_rec(pre.servers@, t0, 0);
        if j != -1 {
            pre.servers@[j].ext.numeric@
        } else {
            Seq::empty()
        }
    } else {
        let i = find_user_rec(pre.users@, t0, 0);
        if i != -1 {
            pre.users@[i].ext.numeric@
        } else {
            Seq::empty()
        }
    }
}

/// What dispatching one tokenized line guarantees, by its command token;
/// an unknown or missing command changes nothing.  Each branch restates
/// the heart of the matching handler's contract at the dispatcher's level.
pub open spec fn dispatch_effect(
    pre: crate::core_data::NeroData,
    post: crate::core_data::NeroData,
    toks: Seq<Seq<u8>>,
) -> bool {
    let ci = proc_cmd_idx(pre, toks);
    if toks.len() <= ci {
        post == pre
    } else {
        let orig = if ci == 1 {
            proc_origin(pre, toks)
        } else {
            Seq::empty()
        };
        let cmdt = toks[ci];
        let args = toks.skip(ci);
        let n = toks.len() - ci;
        if cmdt == seq![83u8, 69u8, 82u8, 86u8, 69u8, 82u8] || cmdt == seq![83u8] {
            &&& post == (crate::core_data::NeroData {
                servers: post.servers,
                uplink: post.uplink,
                write_buffer: post.write_buffer,
                unbursted_channels: post.unbursted_channels,
                ..pre
            })
            &&& (n < 9 || args[6].len() < 2 ==> post == pre)
            &&& (n >= 9 && args[6].len() >= 2 ==> post.servers@.len() == pre.servers@.len() + 1
                && post.servers@.last().ext.numeric@ == args[6].take(2)
                && post.servers@.last().base.hostname@ == args[1]
                && post.servers@.last().base.description@ == args[8] && post.users@ == pre.users@
                && (forall|j: int|
                0 <= j < pre.servers@.len() ==> #[trigger] post.servers@[j] == pre.servers@[j]) && (
            pre.uplink is None ==> post.uplink == Some(pre.servers@.len() as usize)))
        } else if cmdt == seq![80u8, 65u8, 83u8, 83u8] {
            post == pre
        } else if cmdt == seq![78u8] {
            let ui = find_user_rec(pre.users@, orig, 0);
            &&& post == (crate::core_data::NeroData {
                users: post.users,
                servers: post.servers,
                fired_hooks: post.fired_hooks,
                ..pre
            })
            &&& if ui != -1 {
                &&& (n < 2 ==> post == pre)
                &&& (n >= 2 ==> post.users@ == pre.users@.update(ui, post.users@[ui])
                    && post.users@[ui].base.nick@ == args[1] && post.users@[ui].ext.numeric@
                    == pre.users@[ui].ext.numeric@)
            } else {
                &&& (n < 9 ==> post == pre)
                &&& (n >= 9 && find_server_rec(pre.servers@, orig, 0) != -1 && 3 <= args[(
                n - 2) as int].len() <= 5 && find_user_rec(pre.users@, args[(n - 2) as int], 0)
                    == -1 ==> post.users@.len() == pre.users@.len() + 1
                    && post.users@.last().base.nick@ == args[1] && post.users@.last().ext.numeric@
                    == args[(n - 2) as int] && post.users@.last().base.ip@ == base64_to_ip(
                    args[(n - 3) as int],
                ))
            }
        } else if cmdt == seq![81u8] {
            let ui = find_user_rec(pre.users@, orig, 0);
            &&& post == (crate::core_data::NeroData {
                users: post.users,
                servers: post.servers,
                fired_hooks: post.fired_hooks,
                ..pre
            })
            &&& (ui == -1 || orig.len() < 3 || orig.len() > 5 ==> post == pre)
            &&& (ui != -1 && 3 <= orig.len() <= 5 ==> post.users@ == pre.users@.remove(ui)
                && post.fired_hooks@.len() == pre.fired_hooks@.len()
                + crate::core_data::matching_events(
                pre.events@,
                crate::plugin::HookType::UserQuit,
            ).len())
        } else if cmdt == seq![66u8] {
            &&& post == (crate::core_data::NeroData {
                channels: post.channels,
                write_buffer: post.write_buffer,
                ..pre
            })
            &&& (n < 3 ==> post == pre)
            &&& (n >= 3 ==> ({
                let ts = ts_or_now(args[2], pre.now);
                let chi = find_channel_rec(pre.channels@, args[1], 0);
                &&& post.users@ == pre.users@
                &&& (chi >= 0 && pre.channels@[chi].created > ts ==> post.channels@[chi].created
                    == ts && post.channels@[chi].topic@.len() == 0)
                &&& (chi >= 0 && pre.channels@[chi].created <= ts ==> post.channels@[chi].created
                    == pre.channels@[chi].created && post.channels@[chi].topic@
                    == pre.channels@[chi].topic@)
                &&& (chi < 0 ==> post.channels@.len() == pre.channels@.len() + 1
                    && post.channels@.last().name@ == args[1] && post.channels@.last().created
                    == ts)
            }))
        } else if cmdt == seq![84u8] {
            &&& (n < 3 || find_channel_rec(pre.channels@, args[1], 0) == -1 ==> post == pre)
            &&& (n >= 3 && find_channel_rec(pre.channels@, args[1], 0) != -1 ==> ({
                let chi = find_channel_rec(pre.channels@, args[1], 0);
                &&& post.channels@ == pre.channels@.update(chi, post.channels@[chi])
                &&& post.channels@[chi].topic@ == args[(n - 1) as int]
                &&& post.channels@[chi].topic_time == (if n >= 5 {
                    ts_or_zero(args[3])
                } else {
                    pre.now
                })
            }))
        } else if cmdt == seq![71u8] {
            &&& (n <= 3 ==> post == pre)
            &&& (n > 3 ==> post.write_buffer@.len() == pre.write_buffer@.len() + 1
                && post.write_buffer@.last()@ == pong_line(
                pre.config.uplink.numeric->Some_0@,
                args[2],
                args[3],
            ) && post == (crate::core_data::NeroData { write_buffer: post.write_buffer, ..pre }))
        } else if cmdt == seq![80u8] || cmdt == seq![79u8] {
            let privf = cmdt == seq![80u8];
            let si = find_user_rec(pre.users@, orig, 0);
            let ht = textmessage_hook_type(args[1], privf);
            let bot_missing = ht == crate::plugin::HookType::PrivmsgBot && find_user_rec(
                pre.users@,
                args[1],
                0,
            ) == -1;
            &&& (n < 2 || si == -1 || bot_missing ==> post == pre)
            &&& (n >= 2 && si != -1 && !bot_missing ==> post.fired_hooks@.len()
                == pre.fired_hooks@.len() + crate::core_data::matching_events(pre.events@, ht).len()
                && (forall|k: int|
                #![trigger post.fired_hooks@[k]]
                pre.fired_hooks@.len() <= k < post.fired_hooks@.len() ==> (
                post.fired_hooks@[k].data.hook_type == ht && post.fired_hooks@[k].data.message@
                    == args[(n - 1) as int] && post.fired_hooks@[k].data.origin@
                    == pre.users@[si].base.nick@)) && post == (crate::core_data::NeroData {
                fired_hooks: post.fired_hooks,
                ..pre
            }))
        } else if cmdt == seq![71u8, 76u8] {
            post == pre
        } else if cmdt == seq![69u8, 66u8] {
            let si = find_server_rec(pre.servers@, orig, 0);
            &&& post == (crate::core_data::NeroData {
                servers: post.servers,
                write_buffer: post.write_buffer,
                state: post.state,
                ..pre
            })
            &&& (pre.uplink is None || si == -1 ==> post == pre)
            &&& (pre.uplink is Some && si != -1 ==> post.servers@[si].ext.self_burst == false
                && post.servers@.len() == pre.servers@.len() && (pre.servers@[si].base.hostname@
                == pre.servers@[pre.uplink->Some_0 as int].base.hostname@
                ==> post.write_buffer@.len() == pre.write_buffer@.len() + 2 && (pre.state
                == crate::net::ConnectionState::Bursting ==> post.state
                == crate::net::ConnectionState::Connected)))
        } else if cmdt == seq![69u8, 65u8] {
            post == pre
        } else {
            post == pre
        }
    }
}


/// The member-mode bits a bot's channel-mode word asks for: `o` and `v`.
pub open spec fn bot_member_bits(umodes: Seq<u8>) -> u64
    decreases umodes.len(),
{
    if umodes.len() == 0 {
        0
    } else {
        (if umodes[0] == 111 {
            MMODE_CHANOP
        } else if umodes[0] == 118 {
            MMODE_VOICE
        } else {
            0
        }) | bot_member_bits(umodes.skip(1))
    }
}

/// Whether some channel of `s` with this folded name lists `numeric`
/// among its members, with at least the given member-mode bits.
pub open spec fn bot_joined(
    s: crate::core_data::NeroData,
    name: Seq<u8>,
    numeric: Seq<u8>,
    bits: u64,
) -> bool {
    exists|c2: int, m: int|
        #![trigger s.channels@[c2].members@[m]]
        0 <= c2 < s.channels@.len() && 0 <= m < s.channels@[c2].members@.len() && lower_seq(
            s.channels@[c2].name@,
        ) == lower_seq(name) && s.channels@[c2].members@[m].user_numeric@ == numeric
            && s.channels@[c2].members@[m].base.modes & bits == bits
}

/// Whether `n` is the numnick the local server's allocator hands out at
/// counter value `accum`: the server's prefix and three alphabet digits
/// carrying the counter's bottom digits.
pub open spec fn numeric_allocated(me_numeric: Seq<u8>, accum: u64, n: Seq<u8>) -> bool {
    &&& n.len() == me_numeric.len() + 3
    &&& n.take(me_numeric.len() as int) == me_numeric
    &&& (forall|j: int|
        me_numeric.len() <= j < n.len() ==> crate::utils::is_b64_digit(#[trigger] n[j]))
    &&& crate::utils::b64_seq_val(n.skip(me_numeric.len() as int)) == accum as int
        % crate::utils::pow64(3)
}

/// Whether a token is the one-byte word `a`.
fn is_tok1(t: &[u8], a: u8) -> (r: bool)
    ensures
        r <==> t@ == seq![a],
{
    let r = t.len() == 1 && t[0] == a;
    proof {
        if r {
            assert(t@ =~= seq![a]);
        }
    }
    r
}

/// Whether a token is the two-byte word `a b`.
fn is_tok2(t: &[u8], a: u8, b: u8) -> (r: bool)
    ensures
        r <==> t@ == seq![a, b],
{
    let r = t.len() == 2 && t[0] == a && t[1] == b;
    proof {
        if r {
            assert(t@ =~= seq![a, b]);
        }
    }
    r
}

/// Whether a token is the word `PASS`.
fn is_pass_word(t: &[u8]) -> (r: bool)
    ensures
        r <==> t@ == seq![80u8, 65u8, 83u8, 83u8],
{
    let r = t.len() == 4 && t[0] == 80 && t[1] == 65 && t[2] == 83 && t[3] == 83;
    proof {
        if r {
            assert(t@ =~= seq![80u8, 65u8, 83u8, 83u8]);
        }
    }
    r
}

/// Whether a token is the word `SERVER`.
fn is_server_word(t: &[u8]) -> (r: bool)
    ensures
        r <==> t@ == seq![83u8, 69u8, 82u8, 86u8, 69u8, 82u8],
{
    let r = t.len() == 6 && t[0] == 83 && t[1] == 69 && t[2] == 82 && t[3] == 86 && t[4] == 69
        && t[5] == 82;
    proof {
        if r {
            assert(t@ =~= seq![83u8, 69u8, 82u8, 86u8, 69u8, 82u8]);
        }
    }
    r
}

impl P10 {
    /// Processes one inbound wire line: cuts it into tokens, resolves the
    /// origin, and dispatches on the command, upholding the state
    /// invariant; the connection phase only ever moves forward, and
    /// channel members keep naming known users as long as no user is
    /// removed.
    pub fn process(&self, message: &[u8], core_data: &mut crate::core_data::NeroData)
        requires
            crate::core_data::wf(*old(core_data)),
        ensures
            crate::core_data::wf(*final(core_data)),
            crate::net::state_rank(final(core_data).state) >= crate::net::state_rank(
                old(core_data).state,
            ),
            crate::core_data::members_wf(*old(core_data)) ==> (crate::core_data::members_wf(
                *final(core_data),
            ) || final(core_data).users@.len() < old(core_data).users@.len()),
            proc_tokens(message@).len() == 0 ==> *final(core_data) == *old(core_data),
            proc_tokens(message@).len() > 0 ==> dispatch_effect(
                *old(core_data),
                *final(core_data),
                proc_tokens(message@),
            ),
    {
        let ghost toks = proc_tokens(message@);
        let (argc, argv) = split_line(message, true, 200);
        proof {
            assert(crate::utils::seq_views(argv@) == toks);
        }
        if argv.len() == 0 {
            return ;
        }
        proof {
            assert(argv@[0]@ == toks[0]);
        }
        let cmd: usize = if argv[0].len() < 3 || matches!(core_data.uplink, Some(_)) {
            1
        } else {
            0
        };
        proof {
            assert(cmd as int == proc_cmd_idx(*old(core_data), toks));
        }
        if argc <= cmd {
            return ;
        }
        let ghost gorig: Seq<u8> = if cmd == 1 {
            proc_origin(*old(core_data), toks)
        } else {
            Seq::empty()
        };
        let mut origin: Vec<u8> = Vec::new();
        if cmd > 0 {
            if argv[0][0] == 58 {
                origin = bytes_of(
                    vstd::slice::slice_subrange(argv[0].as_slice(), 0, argv[0].len() - 1),
                );
                proof {
                    assert(origin@ =~= toks[0].take(toks[0].len() - 1));
                }
            } else if argv[0].len() < 3 {
                match find_server_numeric(core_data, argv[0].as_slice()) {
                    Some(j) => {
                        origin = bytes_of(core_data.servers[j].ext.numeric.as_slice());
                    },
                    None => {},
                }
            } else {
                match find_user_numeric(core_data, argv[0].as_slice()) {
                    Some(u) => {
                        origin = bytes_of(core_data.users[u].ext.numeric.as_slice());
                    },
                    None => {},
                }
            }
        }
        proof {
            assert(origin@ == gorig);
        }
        let mut newargv: Vec<Vec<u8>> = Vec::new();
        let mut i: usize = cmd;
        while i < argv.len()
            invariant
                cmd <= i <= argv@.len(),
                newargv@.len() == i - cmd,
                origin@ == gorig,
                forall|k: int| 0 <= k < argv@.len() ==> #[trigger] argv@[k]@.len() > 0,
                forall|k: int| 0 <= k < newargv@.len() ==> #[trigger] newargv@[k]@.len() > 0,
                forall|k: int|
                    0 <= k < newargv@.len() ==> #[trigger] newargv@[k]@ == argv@[cmd + k]@,
            decreases argv@.len() - i,
        {
            newargv.push(bytes_of(argv[i].as_slice()));
            i += 1;
        }
        proof {
            assert forall|k: int| 0 <= k < newargv@.len() implies #[trigger] newargv@[k]@
                == toks.skip(cmd as int)[k] by {
                assert(toks.skip(cmd as int)[k] == toks[cmd + k]);
                assert(argv@[cmd + k]@ == toks[cmd + k]);
            }
        }
        let newargc = argc - cmd;
        let command = &argv[cmd];
        proof {
            assert(command@ == toks[cmd as int]);
        }
        if is_server_word(command.as_slice()) || is_tok1(command.as_slice(), 83) {
            let _ = p10_cmd_server(core_data, origin.as_slice(), newargc, &newargv);
            proof {
                if newargc >= 9 && newargv@[6]@.len() >= 2 {
                    assert(core_data.servers@.last().ext.numeric@ =~= toks.skip(cmd as int)[6].take(
                        2,
                    ));
                }
                assert(dispatch_effect(*old(core_data), *core_data, toks));
            }
        } else if is_pass_word(command.as_slice()) {
            let _ = p10_cmd_pass(core_data, origin.as_slice(), newargc, &newargv);
            proof {
                assert(dispatch_effect(*old(core_data), *core_data, toks));
            }
        } else if is_tok1(command.as_slice(), 78) {
            let _ = p10_cmd_n(core_data, origin.as_slice(), newargc, &newargv);
            proof {
                assert(dispatch_effect(*old(core_data), *core_data, toks));
            }
        } else if is_tok1(command.as_slice(), 81) {
            let _ = p10_cmd_q(core_data, origin.as_slice(), newargc, &newargv);
            proof {
                assert(dispatch_effect(*old(core_data), *core_data, toks));
            }
        } else if is_tok1(command.as_slice(), 66) {
            let _ = p10_cmd_b(core_data, newargc, &newargv);
            proof {
                assert(dispatch_effect(*old(core_data), *core_data, toks));
            }
        } else if is_tok1(command.as_slice(), 84) {
            let _ = p10_cmd_t(core_data, origin.as_slice(), newargc, &newargv);
            proof {
                assert(dispatch_effect(*old(core_data), *core_data, toks));
            }
        } else if is_tok1(command.as_slice(), 71) {
            let _ = p10_cmd_g(core_data, origin.as_slice(), newargc, &newargv);
            proof {
                assert(dispatch_effect(*old(core_data), *core_data, toks));
            }
        } else if is_tok1(command.as_slice(), 80) {
            let _ = p10_cmd_textmessage(core_data, origin.as_slice(), newargc, &newargv, true);
            proof {
                assert(dispatch_effect(*old(core_data), *core_data, toks));
            }
        } else if is_tok1(command.as_slice(), 79) {
            let _ = p10_cmd_textmessage(core_data, origin.as_slice(), newargc, &newargv, false);
            proof {
                assert(dispatch_effect(*old(core_data), *core_data, toks));
            }
        } else if is_tok2(command.as_slice(), 71, 76) {
            let _ = p10_cmd_gl(core_data, origin.as_slice(), newargc, &newargv);
            proof {
                assert(dispatch_effect(*old(core_data), *core_data, toks));
            }
        } else if is_tok2(command.as_slice(), 69, 66) {
            let _ = p10_cmd_eb(core_data, origin.as_slice());
            proof {
                let pre = *old(core_data);
                lemma_find_server_rec(pre.servers@, gorig, 0);
                assert(dispatch_effect(*old(core_data), *core_data, toks));
            }
        } else if is_tok2(command.as_slice(), 69, 65) {
            let _ = p10_cmd_ea(core_data, origin.as_slice());
            proof {
                assert(dispatch_effect(*old(core_data), *core_data, toks));
            }
        } else {
            // An unknown command is dropped; the host program may log it.
            proof {
                assert(dispatch_effect(*old(core_data), *core_data, toks));
            }
        }
    }
}




} // verus!
