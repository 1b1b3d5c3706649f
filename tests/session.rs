use halloy_data::buffer::{Buffer, Server};
use halloy_data::client::{Brodcast, Client, Context, Event, Status};
use halloy_data::proto::{Command, Message, Prefix, Tag};
use halloy_data::registry::ClientMap;
use halloy_data::user::User;

fn s(text: &str) -> String {
    text.to_string()
}

fn server() -> Server {
    Server::new(s("net"))
}

fn channel_buffer(name: &str) -> Buffer {
    Buffer::Channel(server(), s(name))
}

fn from(nick: &str, command: Command) -> Message {
    Message {
        tags: vec![],
        prefix: Some(Prefix::Nickname(s(nick), s("user"), s("host"))),
        command,
    }
}

fn from_server(command: Command) -> Message {
    Message {
        tags: vec![],
        prefix: Some(Prefix::ServerName(s("irc.example.org"))),
        command,
    }
}

fn tagged(mut message: Message, key: &str, value: &str) -> Message {
    message.tags.push(Tag {
        key: s(key),
        value: Some(s(value)),
    });
    message
}

fn join(nick: &str, channel: &str) -> Message {
    from(nick, Command::JOIN(s(channel), None))
}

fn names(channel: &str, list: &str) -> Message {
    from_server(Command::Numeric(
        353,
        vec![s("me"), s("="), s(channel), s(list)],
    ))
}

fn nicks(users: &[User]) -> Vec<String> {
    users.iter().map(|u| u.nickname.clone()).collect()
}

fn target_of(event: &Event) -> Option<&Buffer> {
    match event {
        Event::WithTarget(_, _, buffer) => Some(buffer),
        _ => None,
    }
}

fn is_single(event: &Event) -> bool {
    matches!(event, Event::Single(..))
}

fn same_buffer(a: &Buffer, b: &Buffer) -> bool {
    match (a, b) {
        (Buffer::Channel(x, c), Buffer::Channel(y, d)) => x.name == y.name && c == d,
        (Buffer::Query(x, c), Buffer::Query(y, d)) => x.name == y.name && c == d,
        (Buffer::Server(x), Buffer::Server(y)) => x.name == y.name,
        _ => false,
    }
}

/// A session where the server acknowledged labeled responses.
fn labelled_client() -> Client {
    let mut client = Client::new(s("me"));
    let events = client.receive(from_server(Command::CAP(
        Some(s("me")),
        s("ACK"),
        Some(s("echo-message labeled-response")),
        None,
    )));
    assert_eq!(events.len(), 1);
    client
}

#[test]
fn joining_creates_channels_and_members() {
    let mut client = Client::new(s("me"));
    client.receive(join("me", "#a"));
    client.receive(join("bob", "#a"));
    client.receive(join("bob", "#a"));
    client.receive(join("carol", "#b"));
    client.sync();
    assert_eq!(client.channels(), &vec![s("#a")]);
    assert_eq!(nicks(client.users("#a")), vec![s("bob")]);
    assert!(client.users("#b").is_empty());
}

#[test]
fn parting_and_quitting_remove_members() {
    let mut client = Client::new(s("me"));
    client.receive(join("me", "#a"));
    client.receive(join("me", "#b"));
    client.receive(names("#a", "@bob carol +dave"));
    client.receive(names("#b", "bob"));
    client.receive(from("carol", Command::PART(s("#a"), None)));
    let events = client.receive(from("bob", Command::QUIT(Some(s("bye")))));
    assert_eq!(events.len(), 1);
    match &events[0] {
        Event::Brodcast(Brodcast::Quit {
            user,
            comment,
            channels,
        }) => {
            assert_eq!(user.nickname, "bob");
            assert_eq!(comment.as_deref(), Some("bye"));
            assert_eq!(channels, &vec![s("#a"), s("#b")]);
        }
        _ => panic!("expected a quit broadcast"),
    }
    client.sync();
    assert_eq!(nicks(client.users("#a")), vec![s("dave")]);
    assert!(client.users("#b").is_empty());
    client.receive(from("me", Command::PART(s("#b"), None)));
    client.sync();
    assert_eq!(client.channels(), &vec![s("#a")]);
}

#[test]
fn names_reply_reads_access_markers() {
    let mut client = Client::new(s("me"));
    client.receive(join("me", "#a"));
    client.receive(names("#a", "~owner @op %half +voice plain!u@h"));
    client.sync();
    let users = client.users("#a");
    assert_eq!(
        nicks(users),
        vec![s("owner"), s("op"), s("half"), s("voice"), s("plain")]
    );
    assert!(users[0].access.owner);
    assert!(users[1].access.oper);
    assert!(users[2].access.half_op);
    assert!(users[3].access.voice);
    assert!(!users[4].access.voice && !users[4].access.oper);
}

#[test]
fn nick_change_reaches_every_channel() {
    let mut client = Client::new(s("me"));
    client.receive(join("me", "#a"));
    client.receive(join("me", "#b"));
    client.receive(join("me", "#c"));
    client.receive(names("#a", "@bob"));
    client.receive(names("#b", "bob"));
    let events = client.receive(from("bob", Command::NICK(s("robert"))));
    assert_eq!(events.len(), 1);
    match &events[0] {
        Event::Brodcast(Brodcast::Nickname {
            old_user,
            new_nick,
            ourself,
            channels,
        }) => {
            assert_eq!(old_user.nickname, "bob");
            assert_eq!(new_nick, "robert");
            assert!(!ourself);
            assert_eq!(channels, &vec![s("#a"), s("#b")]);
        }
        _ => panic!("expected a nickname broadcast"),
    }
    client.sync();
    let a = client.users("#a");
    assert_eq!(nicks(a), vec![s("robert")]);
    assert!(a[0].access.oper);
    let b = client.users("#b");
    assert_eq!(nicks(b), vec![s("robert")]);
    assert!(!b[0].access.oper);
    assert_eq!(client.user_channels("robert"), vec![s("#a"), s("#b")]);
}

#[test]
fn our_own_nick_change_and_welcome_update_the_nickname() {
    let mut client = Client::new(s("me"));
    assert_eq!(client.nickname(), "me");
    client.receive(from_server(Command::Numeric(1, vec![s("me_"), s("Welcome")])));
    assert_eq!(client.nickname(), "me_");
    let events = client.receive(from("ME_", Command::NICK(s("newme"))));
    match &events[0] {
        Event::Brodcast(Brodcast::Nickname { ourself, .. }) => assert!(ourself),
        _ => panic!("expected a nickname broadcast"),
    }
    assert_eq!(client.nickname(), "newme");
}

#[test]
fn mode_grants_operator_in_one_channel_only() {
    let mut client = Client::new(s("me"));
    client.receive(join("me", "#x"));
    client.receive(join("me", "#y"));
    client.receive(names("#x", "bob"));
    client.receive(names("#y", "bob"));
    client.receive(from(
        "chanserv",
        Command::MODE(s("#x"), Some(s("+o")), vec![s("bob")]),
    ));
    client.sync();
    assert!(client.users("#x")[0].access.oper);
    assert!(!client.users("#y")[0].access.oper);
    client.receive(from(
        "chanserv",
        Command::MODE(s("#x"), Some(s("-o+v")), vec![s("bob"), s("bob")]),
    ));
    client.sync();
    assert!(!client.users("#x")[0].access.oper);
    assert!(client.users("#x")[0].access.voice);
}

#[test]
fn send_labels_only_after_labels_are_acknowledged() {
    let mut plain = Client::new(s("me"));
    let out = plain.send(
        &channel_buffer("#a"),
        Message::new(Command::PRIVMSG(s("#a"), s("hi"))),
    );
    assert!(out.tags.is_empty());

    let mut client = labelled_client();
    let first = client.send(
        &channel_buffer("#a"),
        Message::new(Command::PRIVMSG(s("#a"), s("hi"))),
    );
    let second = client.send(
        &channel_buffer("#a"),
        Message::new(Command::PRIVMSG(s("#a"), s("again"))),
    );
    assert_eq!(first.tags.len(), 1);
    assert_eq!(first.tags[0].key, "label");
    assert_eq!(first.tags[0].value.as_deref(), Some("0"));
    assert_eq!(second.tags[0].value.as_deref(), Some("1"));
}

#[test]
fn label_is_used_at_most_once_and_echo_is_suppressed() {
    let mut client = labelled_client();
    client.receive(join("me", "#a"));
    let out = client.send(
        &channel_buffer("#a"),
        Message::new(Command::PRIVMSG(s("#a"), s("hi"))),
    );
    let label = out.tags[0].value.clone().unwrap();
    let echo = || tagged(from("me", Command::PRIVMSG(s("#a"), s("hi"))), "label", &label);
    let first = client.receive(echo());
    assert!(first.is_empty());
    let second = client.receive(echo());
    assert_eq!(second.len(), 1);
    assert!(is_single(&second[0]));
}

#[test]
fn our_message_without_context_is_shown() {
    let mut client = Client::new(s("me"));
    let events = client.receive(from("me", Command::PRIVMSG(s("#a"), s("hi"))));
    assert_eq!(events.len(), 1);
    assert!(is_single(&events[0]));
}

#[test]
fn nested_batches_emit_once_at_the_outer_close() {
    let mut client = Client::new(s("me"));
    let open_outer = from_server(Command::BATCH(s("+B1"), vec![s("netjoin")]));
    let open_inner = tagged(
        from_server(Command::BATCH(s("+B2"), vec![s("chathistory")])),
        "batch",
        "B1",
    );
    let inside = tagged(from("bob", Command::PRIVMSG(s("#a"), s("inside"))), "batch", "B2");
    let close_inner = tagged(from_server(Command::BATCH(s("-B2"), vec![])), "batch", "B1");
    let close_outer = from_server(Command::BATCH(s("-B1"), vec![]));
    assert!(client.receive(open_outer).is_empty());
    assert!(client.receive(open_inner).is_empty());
    assert!(client.receive(inside).is_empty());
    assert!(client.receive(close_inner).is_empty());
    let events = client.receive(close_outer);
    assert_eq!(events.len(), 1);
    match &events[0] {
        Event::Single(message, nick) => {
            assert!(message.tags.is_empty());
            assert_eq!(nick, "me");
            match &message.command {
                Command::PRIVMSG(target, text) => {
                    assert_eq!(target, "#a");
                    assert_eq!(text, "inside");
                }
                _ => panic!("expected the message of the batch"),
            }
        }
        _ => panic!("expected a single event"),
    }
}

#[test]
fn closing_an_unknown_batch_gives_nothing() {
    let mut client = Client::new(s("me"));
    assert!(client
        .receive(from_server(Command::BATCH(s("-nope"), vec![])))
        .is_empty());
    assert!(client
        .receive(from_server(Command::BATCH(s(""), vec![])))
        .is_empty());
}

#[test]
fn whois_replies_go_to_the_buffer_that_asked() {
    let mut client = labelled_client();
    let general = channel_buffer("#general");
    let out = client.send(
        &general,
        Message::new(Command::WHOIS(None, s("alice"))),
    );
    let label = out.tags[0].value.clone().unwrap();
    let reply = tagged(
        from_server(Command::Numeric(311, vec![s("me"), s("alice"), s("a"), s("host")])),
        "label",
        &label,
    );
    let events = client.receive(reply);
    assert_eq!(events.len(), 1);
    assert!(same_buffer(target_of(&events[0]).unwrap(), &general));

    let end = from_server(Command::Numeric(318, vec![s("me"), s("alice"), s("End")]));
    let events = client.receive(end);
    assert_eq!(events.len(), 1);
    assert!(same_buffer(target_of(&events[0]).unwrap(), &general));

    let later = from_server(Command::Numeric(312, vec![s("me"), s("x")]));
    let events = client.receive(later);
    assert!(is_single(&events[0]));
}

#[test]
fn context_of_whois_is_distinguished() {
    let whois = Message::new(Command::WHOIS(None, s("alice")));
    let other = Message::new(Command::WHO(Some(s("#a"))));
    assert!(Context::new(&whois, channel_buffer("#a")).is_whois());
    assert!(!Context::new(&other, channel_buffer("#a")).is_whois());
}

#[test]
fn registry_routes_by_server() {
    let mut map = ClientMap::new();
    assert!(map.is_empty());
    assert!(!map.status(&server()).connected());
    assert!(matches!(map.status(&server()), Status::Unavailable));
    map.disconnected(server());
    assert!(matches!(map.status(&server()), Status::Disconnected));
    assert!(map.receive(&server(), join("me", "#a")).is_empty());
    map.ready(server(), Client::new(s("me")));
    assert!(map.status(&server()).connected());
    assert_eq!(map.nickname(&server()), Some("me"));
    let events = map.receive(&server(), join("me", "#a"));
    assert_eq!(events.len(), 1);
    map.receive(&server(), names("#a", "bob"));
    assert!(map.get_channels(&server()).is_empty());
    map.sync(&server());
    assert_eq!(map.get_channels(&server()), &[s("#a")]);
    assert_eq!(nicks(map.get_channel_users(&server(), "#a")), vec![s("bob")]);
    assert_eq!(map.get_user_channels(&server(), "BOB"), vec![s("#a")]);
    let sent = map.send(
        &channel_buffer("#a"),
        Message::new(Command::PRIVMSG(s("#a"), s("hi"))),
    );
    assert!(sent.is_some());
    let other = Buffer::Server(Server::new(s("elsewhere")));
    assert!(map
        .send(&other, Message::new(Command::PRIVMSG(s("#a"), s("hi"))))
        .is_none());
    assert!(map.remove(&server()).is_some());
    assert!(map.is_empty());
}

#[test]
fn sync_sorts_channels_and_members() {
    let mut client = Client::new(s("me"));
    client.receive(join("me", "#zeta"));
    client.receive(join("me", "#alpha"));
    client.receive(names("#alpha", "carol Bob @dave alice +erin"));
    assert!(client.channels().is_empty());
    client.sync();
    assert_eq!(client.channels(), &vec![s("#alpha"), s("#zeta")]);
    assert_eq!(
        nicks(client.users("#alpha")),
        vec![s("dave"), s("erin"), s("alice"), s("Bob"), s("carol")]
    );
}

#[test]
fn quitting_and_listing_entries() {
    let client = Client::new(s("me"));
    let quit = client.quit();
    assert!(matches!(quit.command, Command::QUIT(None)));
    assert_eq!(halloy_data::format::message(quit), "QUIT \r\n");
    let mut map = ClientMap::new();
    map.disconnected(server());
    map.ready(Server::new(s("other")), Client::new(s("me")));
    let names: Vec<String> = map.entries().iter().map(|e| e.server.name.clone()).collect();
    assert_eq!(names, vec![s("net"), s("other")]);
}
