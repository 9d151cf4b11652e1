use irc_relay::dispatch::CommandResponse;
use irc_relay::dispatch::session_step;
use irc_relay::registry::ChannelTable;
use irc_relay::registry::UserTable;
use irc_relay::registry::accept_participant;
use irc_relay::registry::channel_exists;
use irc_relay::registry::get_nickname_id;
use irc_relay::registry::get_user;
use irc_relay::registry::nickname_in_use;
use irc_relay::registry::remove_participant;
use irc_relay::router::Delivery;

const SRV: &str = "server";

fn tables() -> (UserTable, ChannelTable) {
    (dashmap::DashMap::new(), dashmap::DashMap::new())
}

fn step(
    users: &mut UserTable,
    channels: &mut ChannelTable,
    id: u128,
    line: &str,
) -> (Vec<Delivery>, CommandResponse) {
    session_step(line, users, channels, id, SRV)
}

/// Register a participant under the given handle.
fn register(users: &mut UserTable, channels: &mut ChannelTable, nick: &str) -> u128 {
    let id = accept_participant(users, "127.0.0.1");
    let (d, _) = step(users, channels, id, &format!("NICK {}", nick));
    assert!(d.is_empty());
    let (d, _) = step(users, channels, id, &format!("USER {} 0 * :X", nick));
    assert_eq!(d.len(), 1);
    id
}

fn pairs(devs: &[Delivery]) -> Vec<(u128, String)> {
    let mut v: Vec<(u128, String)> = devs.iter().map(|d| (d.target, d.line.clone())).collect();
    v.sort();
    v
}

#[test]
fn registration_emits_one_welcome() {
    let (mut users, mut channels) = tables();
    let id = accept_participant(&mut users, "127.0.0.1");
    let (d, v) = step(&mut users, &mut channels, id, "NICK alice\r\n");
    assert!(d.is_empty());
    assert_eq!(v, CommandResponse::Continue);
    assert!(!get_user(&users, id).unwrap().is_registered);
    let (d, v) = step(&mut users, &mut channels, id, "USER alice 0 * :Alice\r\n");
    assert_eq!(v, CommandResponse::Continue);
    assert_eq!(d.len(), 1);
    assert_eq!(d[0].target, id);
    assert_eq!(
        d[0].line,
        ":alice!alice@127.0.0.1 001 alice :Welcome to the Internet Relay Network alice!alice@127.0.0.1\r\n"
    );
    assert!(get_user(&users, id).unwrap().is_registered);
    // A second USER is refused: registration happens exactly once.
    let (d, _) = step(&mut users, &mut channels, id, "USER alice 0 * :Alice");
    assert_eq!(d.len(), 1);
    assert_eq!(
        d[0].line,
        format!(
            ":{} 462 :Cannot send USER message since the client is already registered.\r\n",
            SRV
        )
    );
    assert!(get_user(&users, id).unwrap().is_registered);
}

#[test]
fn duplicate_nickname_is_refused() {
    let (mut users, mut channels) = tables();
    let _alice = register(&mut users, &mut channels, "alice");
    let bob = accept_participant(&mut users, "127.0.0.1");
    let (d, _) = step(&mut users, &mut channels, bob, "NICK alice");
    assert_eq!(d.len(), 1);
    assert_eq!(d[0].target, bob);
    assert_eq!(d[0].line, format!(":{} 433 :Nickname is already in use.\r\n", SRV));
    assert_eq!(get_user(&users, bob).unwrap().nickname, None);
}

#[test]
fn channel_join_and_privmsg_fan_out() {
    let (mut users, mut channels) = tables();
    let alice = register(&mut users, &mut channels, "alice");
    let bob = register(&mut users, &mut channels, "bob");
    let (d, _) = step(&mut users, &mut channels, alice, "JOIN #rust");
    assert!(d.is_empty());
    assert!(channel_exists(&channels, "#rust"));
    let (d, _) = step(&mut users, &mut channels, bob, "JOIN #rust");
    assert_eq!(pairs(&d), vec![(alice, ":bob!bob@127.0.0.1 JOIN :#rust\r\n".to_string())]);
    let (d, _) = step(&mut users, &mut channels, alice, "PRIVMSG #rust :hi");
    assert_eq!(pairs(&d), vec![(bob, ":alice!alice@127.0.0.1 PRIVMSG #rust :hi\r\n".to_string())]);
}

#[test]
fn privmsg_to_channel_not_joined_is_refused() {
    let (mut users, mut channels) = tables();
    let alice = register(&mut users, &mut channels, "alice");
    let bob = register(&mut users, &mut channels, "bob");
    let (_, _) = step(&mut users, &mut channels, alice, "JOIN #rust");
    let (_, _) = step(&mut users, &mut channels, bob, "JOIN #rust");
    let carol = register(&mut users, &mut channels, "carol");
    let (d, _) = step(&mut users, &mut channels, carol, "PRIVMSG #rust :hey");
    assert_eq!(pairs(&d), vec![(
        carol,
        format!(":{} 404 :You are not in that channel.\r\n", SRV),
    )]);
}

#[test]
fn away_indication_and_delivery() {
    let (mut users, mut channels) = tables();
    let alice = register(&mut users, &mut channels, "alice");
    let bob = register(&mut users, &mut channels, "bob");
    let (d, _) = step(&mut users, &mut channels, bob, "AWAY");
    assert_eq!(pairs(&d), vec![(bob, format!(":{} 306 :You are now away.\r\n", SRV))]);
    assert!(get_user(&users, bob).unwrap().is_away);
    let (d, _) = step(&mut users, &mut channels, alice, "PRIVMSG bob :ping");
    assert_eq!(d.len(), 2);
    assert_eq!(d[0].target, alice);
    assert_eq!(
        d[0].line,
        format!(":{} 301 bob :The recipient is marked as away.\r\n", SRV)
    );
    assert_eq!(d[1].target, bob);
    assert_eq!(d[1].line, ":alice!alice@127.0.0.1 PRIVMSG bob :ping\r\n");
    // Toggling back.
    let (d, _) = step(&mut users, &mut channels, bob, "AWAY");
    assert_eq!(pairs(&d), vec![(bob, format!(":{} 305 :You are no longer away.\r\n", SRV))]);
}

#[test]
fn quit_acknowledges_and_fans_out() {
    let (mut users, mut channels) = tables();
    let alice = register(&mut users, &mut channels, "alice");
    let bob = register(&mut users, &mut channels, "bob");
    let (d, v) = step(&mut users, &mut channels, alice, "QUIT :bye");
    assert_eq!(v, CommandResponse::Quit);
    assert_eq!(d.len(), 2);
    assert_eq!(d[0].target, alice);
    assert_eq!(d[0].line, format!(":{} ERROR :User disconnected.\r\n", SRV));
    assert_eq!(d[1].target, bob);
    assert_eq!(d[1].line, ":alice!alice@127.0.0.1 QUIT :bye\r\n");
    remove_participant(&mut users, alice);
    assert!(get_user(&users, alice).is_none());
    assert!(get_user(&users, bob).is_some());
}

#[test]
fn commands_before_registration_are_refused() {
    let (mut users, mut channels) = tables();
    let dave = accept_participant(&mut users, "127.0.0.1");
    for line in ["LIST", "JOIN #rust", "PRIVMSG x :y", "AWAY", "PING"] {
        let (d, v) = step(&mut users, &mut channels, dave, line);
        assert_eq!(v, CommandResponse::Continue);
        assert_eq!(pairs(&d), vec![(
            dave,
            format!(":{} 451 :You have not registered.\r\n", SRV),
        )]);
    }
    let u = get_user(&users, dave).unwrap();
    assert!(!u.is_registered && u.nickname.is_none() && u.channel.is_none());
    assert!(!channel_exists(&channels, "#rust"));
}

#[test]
fn nick_change_broadcasts_to_everyone_including_self() {
    let (mut users, mut channels) = tables();
    let alice = register(&mut users, &mut channels, "alice");
    let bob = register(&mut users, &mut channels, "bob");
    let (d, _) = step(&mut users, &mut channels, alice, "NICK alicia");
    let want_line = ":alice!alice@127.0.0.1 NICK :alicia\r\n".to_string();
    let mut want = vec![(alice, want_line.clone()), (bob, want_line)];
    want.sort();
    assert_eq!(pairs(&d), want);
    assert_eq!(get_user(&users, alice).unwrap().nickname, Some("alicia".to_string()));
    assert!(nickname_in_use("alicia", &users));
    assert!(!nickname_in_use("alice", &users));
}

#[test]
fn part_and_kick_clear_membership() {
    let (mut users, mut channels) = tables();
    let alice = register(&mut users, &mut channels, "alice");
    let bob = register(&mut users, &mut channels, "bob");
    let (_, _) = step(&mut users, &mut channels, alice, "JOIN #a");
    let (_, _) = step(&mut users, &mut channels, bob, "JOIN #a");
    // Alice leaves; the remaining member hears about it.
    let (d, _) = step(&mut users, &mut channels, alice, "PART #a");
    assert_eq!(pairs(&d), vec![(bob, ":alice!alice@127.0.0.1 PART :#a\r\n".to_string())]);
    assert_eq!(get_user(&users, alice).unwrap().channel, None);
    // Parting again is refused: no longer on the channel.
    let (d, _) = step(&mut users, &mut channels, alice, "PART #a");
    assert_eq!(pairs(&d), vec![(
        alice,
        format!(":{} 442 :You are not in that channel.\r\n", SRV),
    )]);
    // Alice rejoins and kicks Bob: the notice reaches the kicked member,
    // whose back-pointer is then cleared.
    let (_, _) = step(&mut users, &mut channels, alice, "JOIN #a");
    let (d, _) = step(&mut users, &mut channels, alice, "KICK #a bob :spam");
    assert_eq!(pairs(&d), vec![(bob, ":alice!alice@127.0.0.1 KICK #a bob :spam\r\n".to_string())]);
    assert_eq!(get_user(&users, bob).unwrap().channel, None);
    assert_eq!(get_user(&users, alice).unwrap().channel, Some("#a".to_string()));
}

#[test]
fn kick_error_replies() {
    let (mut users, mut channels) = tables();
    let alice = register(&mut users, &mut channels, "alice");
    let bob = register(&mut users, &mut channels, "bob");
    let (d, _) = step(&mut users, &mut channels, alice, "KICK");
    assert_eq!(d[0].line, format!(":{} 461 :Specify a channel and user to kick.\r\n", SRV));
    let (d, _) = step(&mut users, &mut channels, alice, "KICK #a");
    assert_eq!(d[0].line, format!(":{} 461 :Specify a user to kick.\r\n", SRV));
    let (d, _) = step(&mut users, &mut channels, alice, "KICK #a bob");
    assert_eq!(d[0].line, format!(":{} 403 :The given channel was not found.\r\n", SRV));
    let (_, _) = step(&mut users, &mut channels, bob, "JOIN #a");
    let (d, _) = step(&mut users, &mut channels, alice, "KICK #a bob");
    assert_eq!(d[0].line, format!(":{} 442 :You are not in that channel.\r\n", SRV));
    let (_, _) = step(&mut users, &mut channels, alice, "JOIN #a");
    let (d, _) = step(&mut users, &mut channels, alice, "KICK #a ghost");
    assert_eq!(d[0].line, format!(":{} 401 :The given user was not found.\r\n", SRV));
    let (_, _) = step(&mut users, &mut channels, bob, "PART #a");
    let (d, _) = step(&mut users, &mut channels, alice, "KICK #a bob");
    assert_eq!(d[0].line, format!(":{} 441 :That user is not in the channel.\r\n", SRV));
}

#[test]
fn privmsg_error_replies() {
    let (mut users, mut channels) = tables();
    let alice = register(&mut users, &mut channels, "alice");
    let (d, _) = step(&mut users, &mut channels, alice, "PRIVMSG bob");
    assert_eq!(
        d[0].line,
        format!(":{} 411 :No recipient for the message was given.\r\n", SRV)
    );
    let (d, _) = step(&mut users, &mut channels, alice, "PRIVMSG ghost :hi");
    assert_eq!(d[0].line, format!(":{} 401 :The given nick was not found.\r\n", SRV));
    let (d, _) = step(&mut users, &mut channels, alice, "PRIVMSG #none :hi");
    assert_eq!(d[0].line, format!(":{} 403 :The given channel was not found.\r\n", SRV));
}

#[test]
fn nick_and_user_error_replies() {
    let (mut users, mut channels) = tables();
    let alice = register(&mut users, &mut channels, "alice");
    let (d, _) = step(&mut users, &mut channels, alice, "NICK");
    assert_eq!(d[0].line, format!(":{} 431 :No nickname was given.\r\n", SRV));
    let (d, _) = step(&mut users, &mut channels, alice, "USER");
    assert_eq!(d[0].line, format!(":{} 431 :No nickname was given.\r\n", SRV));
    let (d, _) = step(&mut users, &mut channels, alice, "JOIN");
    assert_eq!(d[0].line, format!(":{} 461 :Specify which channel to join.\r\n", SRV));
    let (d, _) = step(&mut users, &mut channels, alice, "PART");
    assert_eq!(d[0].line, format!(":{} 461 :Specify which channel to leave.\r\n", SRV));
}

#[test]
fn unknown_command_and_parse_failure() {
    let (mut users, mut channels) = tables();
    let alice = register(&mut users, &mut channels, "alice");
    let (d, _) = step(&mut users, &mut channels, alice, "FROBNICATE x");
    assert_eq!(pairs(&d), vec![(alice, format!(":{} 421 :Unknown command.\r\n", SRV))]);
    // An empty line has no command token: the parser's failure is relayed.
    let (d, v) = step(&mut users, &mut channels, alice, "\r\n");
    assert_eq!(v, CommandResponse::Continue);
    assert_eq!(pairs(&d), vec![(
        alice,
        format!(":{} 421 :Input string does not contain a command.\r\n", SRV),
    )]);
}

#[test]
fn list_counts_members() {
    let (mut users, mut channels) = tables();
    let alice = register(&mut users, &mut channels, "alice");
    let bob = register(&mut users, &mut channels, "bob");
    let carol = register(&mut users, &mut channels, "carol");
    let (_, _) = step(&mut users, &mut channels, alice, "JOIN #one");
    let (_, _) = step(&mut users, &mut channels, bob, "JOIN #one");
    let (_, _) = step(&mut users, &mut channels, carol, "JOIN #two");
    let (d, _) = step(&mut users, &mut channels, alice, "LIST");
    assert_eq!(d.len(), 3);
    assert!(d.iter().all(|x| x.target == alice));
    let mut lines: Vec<String> = d[..2].iter().map(|x| x.line.clone()).collect();
    lines.sort();
    assert_eq!(lines, vec![
        format!(":{} 322 #one :2\r\n", SRV),
        format!(":{} 322 #two :1\r\n", SRV),
    ]);
    assert_eq!(d[2].line, format!(":{} 323 :End of LIST\r\n", SRV));
}

#[test]
fn ping_pong_and_silence() {
    let (mut users, mut channels) = tables();
    let alice = register(&mut users, &mut channels, "alice");
    let (d, _) = step(&mut users, &mut channels, alice, "PING whatever");
    assert_eq!(pairs(&d), vec![(alice, format!(":{} PONG :{}\r\n", SRV, SRV))]);
    let (d, _) = step(&mut users, &mut channels, alice, "PONG");
    assert!(d.is_empty());
    let (d, _) = step(&mut users, &mut channels, alice, "ERROR :whatever");
    assert!(d.is_empty());
}

#[test]
fn join_on_current_channel_rebroadcasts() {
    let (mut users, mut channels) = tables();
    let alice = register(&mut users, &mut channels, "alice");
    let bob = register(&mut users, &mut channels, "bob");
    let (_, _) = step(&mut users, &mut channels, alice, "JOIN #a");
    let (_, _) = step(&mut users, &mut channels, bob, "JOIN #a");
    let (d, _) = step(&mut users, &mut channels, alice, "JOIN #a");
    assert_eq!(pairs(&d), vec![(bob, ":alice!alice@127.0.0.1 JOIN :#a\r\n".to_string())]);
}

#[test]
fn channels_persist_when_empty() {
    let (mut users, mut channels) = tables();
    let alice = register(&mut users, &mut channels, "alice");
    let (_, _) = step(&mut users, &mut channels, alice, "JOIN #x");
    let (_, _) = step(&mut users, &mut channels, alice, "PART #x");
    assert!(channel_exists(&channels, "#x"));
    let (d, _) = step(&mut users, &mut channels, alice, "LIST");
    assert_eq!(d.len(), 2);
    assert_eq!(d[0].line, format!(":{} 322 #x :0\r\n", SRV));
    assert_eq!(d[1].line, format!(":{} 323 :End of LIST\r\n", SRV));
}

#[test]
fn accepted_participants_get_distinct_ids() {
    let (mut users, _channels) = tables();
    let a = accept_participant(&mut users, "10.0.0.1");
    let b = accept_participant(&mut users, "10.0.0.2");
    assert_ne!(a, b);
    assert_eq!(get_user(&users, a).unwrap().address, "10.0.0.1");
    assert_eq!(get_user(&users, b).unwrap().address, "10.0.0.2");
    assert_eq!(get_nickname_id("nobody", &users), None);
}
