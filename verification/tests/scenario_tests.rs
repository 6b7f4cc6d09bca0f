use nero::config::{Config, Uplink};
use nero::core_data::NeroData;
use nero::p10::{
    base64_to_vecu8, p10_cmd_b, p10_cmd_n, p10_cmd_q, p10_cmd_server, p10_cmd_t, p10_irc_privmsg,
    P10, UMODE_HIDDEN_HOST, UMODE_INVISIBLE, UMODE_WALLOP,
};
use nero::utils::inttobase64;
use nero::plugin::{HookType, IrcEvent};

fn test_config() -> Config {
    Config {
        uplink: Uplink {
            ip: b"127.0.0.1".to_vec(),
            port: 4400,
            protocol: b"P10".to_vec(),
            hostname: b"nero.example".to_vec(),
            description: b"test link".to_vec(),
            send_pass: b"sendpw".to_vec(),
            recv_pass: b"recvpw".to_vec(),
            numeric: Some(b"AB".to_vec()),
        },
        plugins: None,
    }
}

fn connected() -> (P10, NeroData) {
    let p = P10::new();
    let mut n = NeroData::new(test_config());
    n.now = 1000;
    p.process(b"AB SERVER peer.example 1 100 100 J10 AB]]] +s6 :peer", &mut n);
    p.process(
        b"AB N alice 1 200 a alice.host +iwx B]AAAB ABAAB :Alice",
        &mut n,
    );
    (p, n)
}

#[test]
fn test_handshake_lines() {
    let mut p = P10::new();
    let mut n = NeroData::new(test_config());
    n.now = 1234;
    p.start_handshake(&mut n);
    assert_eq!(n.write_buffer.len(), 2);
    assert_eq!(n.write_buffer[0].as_slice(), b"PASS :sendpw");
    assert_eq!(
        n.write_buffer[1].as_slice(),
        b"SERVER nero.example 1 1234 1234 J10 ABA]] +s6 :test link".as_slice()
    );
}

#[test]
fn test_new_user_scenario() {
    let p = P10::new();
    let mut n = NeroData::new(test_config());
    n.now = 1000;
    n.events.push(IrcEvent { plugin_id: 7, event_type: HookType::UserConnected });
    p.process(b"AB SERVER peer.example 1 100 100 J10 AB]]] +s6 :peer", &mut n);
    assert_eq!(n.get_server_count(), 2);
    assert_eq!(n.servers[1].ext.numeric.as_slice(), b"AB");
    p.process(
        b"AB N alice 1 200 a alice.host +iwx B]AAAB ABAAB :Alice",
        &mut n,
    );
    let alice = n.get_user_by_numeric(b"ABAAB").expect("alice should exist");
    assert_eq!(alice.nick.as_slice(), b"alice");
    assert_eq!(alice.ip.as_slice(), b"127.0.0.1");
    assert_eq!(alice.modes, UMODE_INVISIBLE | UMODE_WALLOP | UMODE_HIDDEN_HOST);
    assert_eq!(n.fired_hooks.len(), 1);
    assert_eq!(n.fired_hooks[0].plugin_id, 7);
    assert_eq!(n.fired_hooks[0].data.target.as_slice(), b"alice");
}

#[test]
fn test_burst_channel_with_ops() {
    let (p, mut n) = connected();
    p.process(b"AB B #room 150 +ntl 10 ABAAB:ov", &mut n);
    assert_eq!(n.get_channel_count(), 1);
    let room = &n.channels[0];
    assert_eq!(room.name.as_slice(), b"#room");
    assert_eq!(
        room.modes,
        nero::p10::CMODE_NOPRIVMSGS | nero::p10::CMODE_TOPICLIMIT | nero::p10::CMODE_LIMIT
    );
    assert_eq!(room.limit, 10);
    assert_eq!(room.members.len(), 1);
    assert_eq!(room.members[0].user_numeric.as_slice(), b"ABAAB");
    assert_eq!(
        room.members[0].base.modes,
        nero::p10::MMODE_CHANOP | nero::p10::MMODE_VOICE
    );

    p.process(b"AB N carol 1 210 c carol.host +i B]AAAB ABAAC :Carol", &mut n);
    p.process(b"AB B #room 200 +n ABAAC", &mut n);
    let room = &n.channels[0];
    assert_eq!(room.created, 150);
    assert_eq!(room.members.len(), 2);
    assert_eq!(room.members[1].user_numeric.as_slice(), b"ABAAC");
}

#[test]
fn test_topic_before_and_after() {
    let (p, mut n) = connected();
    p.process(b"AB B #room 150 +ntl 10 ABAAB:ov", &mut n);
    p.process(b"AB T #room alice 250 :hello", &mut n);
    let room = &n.channels[0];
    assert_eq!(room.topic.as_slice(), b"hello");
    assert_eq!(room.topic_nick.as_slice(), b"alice");
    assert_eq!(room.topic_time, 250);

    n.now = 7777;
    p.process(b"AB T #room :second", &mut n);
    let room = &n.channels[0];
    assert_eq!(room.topic.as_slice(), b"second");
    assert_eq!(room.topic_time, 7777);
}

#[test]
fn test_ping_pong() {
    let (p, mut n) = connected();
    let before = n.write_buffer.len();
    p.process(b"AB G !123 ABAAB 456", &mut n);
    assert_eq!(n.write_buffer.len(), before + 1);
    assert_eq!(n.write_buffer[before].as_slice(), b"AB Z ABAAB 456 0 456");
}

#[test]
fn test_end_of_burst() {
    let (p, mut n) = connected();
    n.state = nero::net::ConnectionState::Bursting;
    let before = n.write_buffer.len();
    p.process(b"AB EB", &mut n);
    assert_eq!(n.write_buffer.len(), before + 2);
    assert_eq!(n.write_buffer[before].as_slice(), b"AB EB");
    assert_eq!(n.write_buffer[before + 1].as_slice(), b"AB EA");
    assert!(matches!(n.state, nero::net::ConnectionState::Connected));
}

#[test]
fn test_plugin_privmsg_hook() {
    let (p, mut n) = connected();
    p.process(b"AB B #room 150 +ntl 10 ABAAB:ov", &mut n);
    n.events.push(IrcEvent { plugin_id: 3, event_type: HookType::PrivmsgChan });
    p.process(b"ABAAB P #room :hi", &mut n);
    assert_eq!(n.fired_hooks.len(), 1);
    let fired = &n.fired_hooks[0];
    assert_eq!(fired.plugin_id, 3);
    assert!(matches!(fired.data.hook_type, HookType::PrivmsgChan));
    assert_eq!(fired.data.target.as_slice(), b"#room");
    assert_eq!(fired.data.origin.as_slice(), b"alice");
    assert_eq!(fired.data.message.as_slice(), b"hi");
}

#[test]
fn test_outbound_chunking_scenario() {
    let (_p, mut n) = connected();
    let alice = n.get_user_by_numeric(b"ABAAB").expect("alice should exist");
    let message = vec![b'x'; 1400];
    let before = n.write_buffer.len();
    n.send_privmsg_raw_target(&alice, b"#room", message.as_slice());
    assert_eq!(n.write_buffer.len(), before + 3);
    let prefix: &[u8] = b"ABAAB P #room :";
    for (k, want) in [(0usize, 500usize), (1, 500), (2, 400)] {
        let line = &n.write_buffer[before + k];
        assert_eq!(&line[..prefix.len()], prefix);
        assert_eq!(line.len(), prefix.len() + want);
    }
}

#[test]
fn test_chunk_boundaries() {
    // The prefix "ABAAB P #room :" is 15 bytes; prefix and payload
    // together make the 500-byte lines.
    let mut buffer: Vec<Vec<u8>> = Vec::new();
    p10_irc_privmsg(&mut buffer, b"ABAAB", b"#room", vec![b'y'; 484].as_slice());
    assert_eq!(buffer.len(), 1);
    assert_eq!(buffer[0].len(), 499);
    p10_irc_privmsg(&mut buffer, b"ABAAB", b"#room", vec![b'y'; 485].as_slice());
    assert_eq!(buffer.len(), 2);
    assert_eq!(buffer[1].len(), 500);
    p10_irc_privmsg(&mut buffer, b"ABAAB", b"#room", vec![b'y'; 486].as_slice());
    assert_eq!(buffer.len(), 4);
}

#[test]
fn test_new_user_without_modes_has_none() {
    let (p, mut n) = connected();
    p.process(b"AB N bob 1 300 b bob.host B]AAAB ABAAD :Bob", &mut n);
    let bob = n.get_user_by_numeric(b"ABAAD").expect("bob should exist");
    assert_eq!(bob.modes, 0);
}

#[test]
fn test_older_burst_wipes_topic() {
    let (p, mut n) = connected();
    p.process(b"AB B #room 150 +ntl 10 ABAAB:ov", &mut n);
    p.process(b"AB T #room alice 250 :hello", &mut n);
    assert_eq!(n.channels[0].topic.as_slice(), b"hello");
    p.process(b"AB B #room 100 +n ABAAB", &mut n);
    let room = &n.channels[0];
    assert_eq!(room.created, 100);
    assert_eq!(room.topic.len(), 0);
    assert_eq!(room.topic_time, 0);
}

#[test]
fn test_underscore_decodes_to_empty_ip() {
    assert_eq!(base64_to_vecu8(b"_").len(), 0);
}

#[test]
fn test_ip_decoding() {
    assert_eq!(base64_to_vecu8(b"B]AAAB").as_slice(), b"127.0.0.1");
}

/// A reference decoder for the numnick digit alphabet.
fn b64_decode_ref(digits: &[u8]) -> usize {
    let mut v: usize = 0;
    for &d in digits {
        let x = match d {
            b'A'..=b'Z' => (d - b'A') as usize,
            b'a'..=b'z' => (d - b'a') as usize + 26,
            b'0'..=b'9' => (d - b'0') as usize + 52,
            b'[' => 62,
            _ => 63,
        };
        v = v * 64 + x;
    }
    v
}

#[test]
fn test_base64_roundtrip() {
    for v in [0usize, 1, 63, 64, 4095, 91397, 262143] {
        assert_eq!(b64_decode_ref(inttobase64(v, 3).as_slice()), v);
    }
    assert_eq!(b64_decode_ref(inttobase64(5, 1).as_slice()), 5);
    assert_eq!(b64_decode_ref(inttobase64(123456, 5).as_slice()), 123456);
}

#[test]
fn test_quit_removes_user() {
    let (p, mut n) = connected();
    n.events.push(IrcEvent { plugin_id: 1, event_type: HookType::UserQuit });
    assert_eq!(n.get_user_count(), 1);
    p.process(b"ABAAB Q :gone fishing", &mut n);
    assert_eq!(n.get_user_count(), 0);
    assert!(n.get_user_by_numeric(b"ABAAB").is_none());
    assert_eq!(n.fired_hooks.len(), 1);
    assert_eq!(n.fired_hooks[0].data.target.as_slice(), b"alice");
    assert_eq!(n.fired_hooks[0].data.message.as_slice(), b"gone fishing");
    assert_eq!(n.servers[1].users.len(), 0);
}

#[test]
fn test_nick_change() {
    let (p, mut n) = connected();
    p.process(b"ABAAB N newalice", &mut n);
    let u = n.get_user_by_numeric(b"ABAAB").expect("still present");
    assert_eq!(u.nick.as_slice(), b"newalice");
}

#[test]
fn test_truncated_lines_are_refused() {
    let (_p, mut n) = connected();
    let short: Vec<Vec<u8>> = vec![b"T".to_vec(), b"#room".to_vec()];
    assert!(p10_cmd_t(&mut n, b"AB", 2, &short).is_err());
    let short: Vec<Vec<u8>> = vec![b"B".to_vec(), b"#room".to_vec()];
    assert!(p10_cmd_b(&mut n, 2, &short).is_err());
    let short: Vec<Vec<u8>> = vec![b"SERVER".to_vec(), b"x.example".to_vec()];
    assert!(p10_cmd_server(&mut n, b"", 2, &short).is_err());
    let short: Vec<Vec<u8>> =
        vec![b"N".to_vec(), b"nick".to_vec(), b"1".to_vec(), b"2".to_vec()];
    assert!(p10_cmd_n(&mut n, b"ZZ", 4, &short).is_err());
}

#[test]
fn test_unknown_state_is_refused() {
    let (_p, mut n) = connected();
    let t_line: Vec<Vec<u8>> = vec![
        b"T".to_vec(),
        b"#nowhere".to_vec(),
        b"alice".to_vec(),
        b"1".to_vec(),
        b"topic".to_vec(),
    ];
    assert!(p10_cmd_t(&mut n, b"AB", 5, &t_line).is_err());
    let q_line: Vec<Vec<u8>> = vec![b"Q".to_vec(), b"bye".to_vec()];
    assert!(p10_cmd_q(&mut n, b"ZZZZZ", 2, &q_line).is_err());
}

#[test]
fn test_burst_reparse_keeps_channel() {
    // Build a channel we own, let the uplink's burst trigger ours, and
    // feed the emitted line to a fresh engine: the channel comes back.
    let (p, mut n) = connected();
    p.process(b"AB B #own 42 +tn ABAAB:o", &mut n);
    n.unbursted_channels.push(b"#own".to_vec());
    let before = n.write_buffer.len();
    p.process(b"AB B #own 42 +n ABAAB", &mut n);
    assert!(n.write_buffer.len() > before);
    let ours = n.write_buffer[before].clone();
    assert_eq!(&ours[..9], b"AB B #own");

    let (p2, mut n2) = connected();
    p2.process(ours.as_slice(), &mut n2);
    let reborn = &n2.channels[0];
    assert_eq!(reborn.name.as_slice(), b"#own");
    assert_eq!(reborn.created, 42);
    assert_eq!(
        reborn.modes,
        nero::p10::CMODE_TOPICLIMIT | nero::p10::CMODE_NOPRIVMSGS
    );
    assert_eq!(reborn.limit, 0);
    assert_eq!(reborn.members.len(), 1);
    assert_eq!(reborn.members[0].user_numeric.as_slice(), b"ABAAB");
    assert_eq!(reborn.members[0].base.modes, nero::p10::MMODE_CHANOP);
}

#[test]
fn test_privmsg_to_bot_names_nick() {
    let (p, mut n) = connected();
    n.events.push(IrcEvent { plugin_id: 2, event_type: HookType::PrivmsgBot });
    p.process(b"ABAAB P ABAAB :hello there", &mut n);
    assert_eq!(n.fired_hooks.len(), 1);
    let fired = &n.fired_hooks[0];
    assert!(matches!(fired.data.hook_type, HookType::PrivmsgBot));
    assert_eq!(fired.data.target.as_slice(), b"alice");
    assert_eq!(fired.data.message.as_slice(), b"hello there");
}

#[test]
fn test_nick_lookup_folds_case() {
    let (_p, n) = connected();
    let found = n.get_user_by_nick(b"ALICE").expect("case-insensitive lookup");
    assert_eq!(found.nick.as_slice(), b"alice");
    assert!(n.get_user_by_nick(b"nobody").is_none());
}

#[test]
fn test_pass_mismatch_is_not_fatal() {
    let p = P10::new();
    let mut n = NeroData::new(test_config());
    p.process(b"PASS :wrongpw", &mut n);
    p.process(b"AB SERVER peer.example 1 100 100 J10 AB]]] +s6 :peer", &mut n);
    assert_eq!(n.get_server_count(), 2);
}
