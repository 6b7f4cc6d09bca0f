use nero::channel::Channel;
use nero::p10::{
    p10_add_channel_mode, p10_set_channel_bans, p10_set_channel_modes, p10_set_user_modes,
    CMODE_APASS, CMODE_BAN, CMODE_DELAYJOINS, CMODE_INVITEONLY, CMODE_KEY, CMODE_LIMIT,
    CMODE_MODERATED, CMODE_NOCOLORS, CMODE_NOCTCPS, CMODE_NOPRIVMSGS, CMODE_PRIVATE,
    CMODE_REGISTERED, CMODE_REGONLY, CMODE_SECRET, CMODE_TOPICLIMIT, CMODE_UPASS, UMODE_GLOBAL,
    UMODE_HIDDEN_HOST, UMODE_OPER, UMODE_STAMPED,
};
use nero::user::User;

fn test_make_channel() -> Channel {
    Channel::new(b"#nero", 0)
}

fn test_make_user() -> User {
    User::new(b"test", b"kvirc", b"some.host.name", 0)
}

#[test]
fn test_set_user_modes() {
    let mut user = test_make_user();

    let mode_string: &[u8] = b"+owgrh blindsight someu@someh";
    p10_set_user_modes(&mut user, mode_string);

    assert!(user.base.modes & UMODE_STAMPED > 0);
    assert!(user.base.modes & UMODE_OPER > 0);
    assert!(user.base.modes & UMODE_GLOBAL > 0);
    assert!(user.base.modes & UMODE_HIDDEN_HOST == 0);

    let mode_string: &[u8] = b"+x";
    p10_set_user_modes(&mut user, mode_string);
    assert!(user.base.modes & UMODE_HIDDEN_HOST > 0);
    assert!(user.base.modes & UMODE_STAMPED > 0);
    assert!(user.base.modes & UMODE_OPER > 0);
    assert!(user.base.modes & UMODE_GLOBAL > 0);
}

#[test]
fn test_parses_channel_bans() {
    let mut channel = test_make_channel();
    let bans_string: &[u8] = b"*!*@test.host.a *ident~!*@* *!*@127.0.0.1";
    p10_set_channel_bans(&mut channel, bans_string);
    assert_eq!(channel.bans.len(), 3);
    assert!(channel.bans.iter().position(|n| n == &b"*!*@test.host.a".to_vec()).is_some());
    assert!(channel.bans.iter().position(|n| n == &b"*ident~!*@*".to_vec()).is_some());
    assert!(channel.bans.iter().position(|n| n == &b"*!*@127.0.0.1".to_vec()).is_some());
    assert!(channel.bans.iter().position(|n| n == &b"*!*@*".to_vec()).is_none());

    let mut channel = test_make_channel();
    let bans_string: &[u8] = b"";
    p10_set_channel_bans(&mut channel, bans_string);
    assert_eq!(channel.bans.len(), 0);
    assert!(channel.bans.iter().position(|n| n == &b"*!*@*".to_vec()).is_none());
}

#[test]
fn test_parses_channel_mode_strings() {
    let mut channel = test_make_channel();
    let mode_string: &[u8] = b"+ntl 34";
    p10_set_channel_modes(&mut channel, mode_string);
    assert_eq!(channel.modes, CMODE_LIMIT | CMODE_NOPRIVMSGS | CMODE_TOPICLIMIT);
    assert_eq!(channel.limit, 34);

    let mut channel = test_make_channel();
    assert_eq!(channel.modes, 0);
    let mode_string: &[u8] = b"+kU THAKEY userpass";
    p10_set_channel_modes(&mut channel, mode_string);
    assert!(channel.key.is_some());
    assert!(channel.ext.upass.is_some());
    let key = &channel.key.unwrap();
    let upass = &channel.ext.upass.unwrap();
    assert_eq!(key.as_slice(), b"THAKEY");
    assert_eq!(upass.as_slice(), b"userpass");
    assert_eq!(channel.modes, CMODE_KEY | CMODE_UPASS);
}

#[test]
fn test_adds_channel_mode_bitflags() {
    let mut channel = test_make_channel();

    // Private
    assert!(channel.modes & CMODE_PRIVATE == 0);
    p10_add_channel_mode(&mut channel, true, b'p');
    assert!(channel.modes & CMODE_PRIVATE > 0);

    // Secret
    assert!(channel.modes & CMODE_SECRET == 0);
    p10_add_channel_mode(&mut channel, true, b's');
    assert!(channel.modes & CMODE_MODERATED | CMODE_SECRET > 0);

    // Moderated
    assert!(channel.modes & CMODE_MODERATED == 0);
    p10_add_channel_mode(&mut channel, true, b'm');
    assert!(channel.modes & CMODE_MODERATED > 0);

    // Topic limit
    assert!(channel.modes & CMODE_TOPICLIMIT == 0);
    p10_add_channel_mode(&mut channel, true, b't');
    assert!(channel.modes & CMODE_TOPICLIMIT > 0);

    // Invite only
    assert!(channel.modes & CMODE_INVITEONLY == 0);
    p10_add_channel_mode(&mut channel, true, b'i');
    assert!(channel.modes & CMODE_INVITEONLY > 0);

    // No outside private messages
    assert!(channel.modes & CMODE_NOPRIVMSGS == 0);
    p10_add_channel_mode(&mut channel, true, b'n');
    assert!(channel.modes & CMODE_NOPRIVMSGS > 0);
    assert!(channel.modes & CMODE_NOPRIVMSGS & CMODE_LIMIT == 0);

    // Channel has a key
    assert!(channel.modes & CMODE_KEY == 0);
    p10_add_channel_mode(&mut channel, true, b'k');
    assert!(channel.modes & CMODE_KEY > 0);

    // Ban
    assert!(channel.modes & CMODE_BAN == 0);
    p10_add_channel_mode(&mut channel, true, b'b');
    assert!(channel.modes & CMODE_BAN > 0);

    // Channel has a limit
    assert!(channel.modes & CMODE_LIMIT == 0);
    p10_add_channel_mode(&mut channel, true, b'l');
    assert!(channel.modes & CMODE_LIMIT > 0);

    // Channel is delayed join
    assert!(channel.modes & CMODE_DELAYJOINS == 0);
    p10_add_channel_mode(&mut channel, true, b'D');
    assert!(channel.modes & CMODE_DELAYJOINS > 0);

    // Channel is only allowing registered users
    assert!(channel.modes & CMODE_REGONLY == 0);
    p10_add_channel_mode(&mut channel, true, b'r');
    assert!(channel.modes & CMODE_REGONLY > 0);

    // Channel is blocking color codes
    assert!(channel.modes & CMODE_NOCOLORS == 0);
    p10_add_channel_mode(&mut channel, true, b'c');
    assert!(channel.modes & CMODE_NOCOLORS > 0);

    // Channel is blocking CTCPs
    assert!(channel.modes & CMODE_NOCTCPS == 0);
    p10_add_channel_mode(&mut channel, true, b'C');
    assert!(channel.modes & CMODE_NOCTCPS > 0);

    // Channel is registered
    assert!(channel.modes & CMODE_REGISTERED == 0);
    p10_add_channel_mode(&mut channel, true, b'z');
    assert!(channel.modes & CMODE_REGISTERED > 0);

    // Channel has an admin password
    assert!(channel.modes & CMODE_APASS == 0);
    p10_add_channel_mode(&mut channel, true, b'A');
    assert!(channel.modes & CMODE_APASS > 0);

    // Channel has a user password
    assert!(channel.modes & CMODE_UPASS == 0);
    p10_add_channel_mode(&mut channel, true, b'U');
    assert!(channel.modes & CMODE_UPASS > 0);
}

#[test]
fn test_user_modes_cancel_out() {
    let mut user = test_make_user();
    p10_set_user_modes(&mut user, b"+oiwg");
    assert!(user.base.modes != 0);
    p10_set_user_modes(&mut user, b"-oiwg");
    assert_eq!(user.base.modes, 0);
}

#[test]
fn test_channel_mode_string_roundtrip() {
    let mut channel = test_make_channel();
    p10_set_channel_modes(&mut channel, b"+tnl 34");
    let built = nero::p10::p10_build_channel_mode_string(
        channel.modes,
        channel.limit,
        &channel.key,
        &channel.ext,
    );
    assert_eq!(built.as_slice(), b"tnl 34");

    let mut plussed: Vec<u8> = vec![b'+'];
    plussed.extend_from_slice(&built);
    let mut fresh = test_make_channel();
    p10_set_channel_modes(&mut fresh, plussed.as_slice());
    assert_eq!(fresh.modes, channel.modes);
    assert_eq!(fresh.limit, channel.limit);
}

#[test]
fn test_key_and_limit_roundtrip() {
    let mut channel = test_make_channel();
    p10_set_channel_modes(&mut channel, b"+kl sesame 25");
    assert_eq!(channel.limit, 25);
    assert_eq!(channel.key.as_ref().unwrap().as_slice(), b"sesame");

    let built = nero::p10::p10_build_channel_mode_string(
        channel.modes,
        channel.limit,
        &channel.key,
        &channel.ext,
    );
    assert_eq!(built.as_slice(), b"kl sesame 25");

    let mut plussed: Vec<u8> = vec![b'+'];
    plussed.extend_from_slice(&built);
    let mut fresh = test_make_channel();
    p10_set_channel_modes(&mut fresh, plussed.as_slice());
    assert_eq!(fresh.modes, channel.modes);
    assert_eq!(fresh.limit, 25);
    assert_eq!(fresh.key.as_ref().unwrap().as_slice(), b"sesame");
}

#[test]
fn test_malformed_limit_falls_back_to_zero() {
    let mut channel = test_make_channel();
    p10_set_channel_modes(&mut channel, b"+nl notanumber");
    assert!(channel.modes & CMODE_LIMIT > 0);
    assert_eq!(channel.limit, 0);

    let mut channel = test_make_channel();
    p10_set_channel_modes(&mut channel, b"+l 18446744073709551615");
    assert_eq!(channel.limit, u64::MAX);
}

#[test]
fn test_account_and_fakehost_words() {
    let mut user = test_make_user();
    p10_set_user_modes(&mut user, b"+rh blindsight someu@someh");
    assert_eq!(user.base.account.as_slice(), b"blindsight");
    assert_eq!(user.ext.fakeident.as_slice(), b"someu");
    assert_eq!(user.ext.fakehost.as_slice(), b"someh");

    let mut user2 = test_make_user();
    p10_set_user_modes(&mut user2, b"+h plainhost ");
    assert_eq!(user2.ext.fakehost.as_slice(), b"plainhost");
    assert_eq!(user2.ext.fakeident.len(), 0);
}
