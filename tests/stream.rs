use halloy_data::buffer::Server;
use halloy_data::proto::{Command, Message};
use halloy_data::stream::{
    cap_ls, cap_request, reconnect_wait, CapNegotiation, Supervisor, Update,
    RECONNECT_DELAY_MILLIS,
};

fn s(text: &str) -> String {
    text.to_string()
}

fn ls_reply(more: bool, caps: &str) -> Message {
    if more {
        Message::new(Command::CAP(Some(s("*")), s("LS"), Some(s("*")), Some(s(caps))))
    } else {
        Message::new(Command::CAP(Some(s("*")), s("LS"), Some(s(caps)), None))
    }
}

#[test]
fn reconnect_waits_out_the_delay() {
    assert_eq!(RECONNECT_DELAY_MILLIS, 10_000);
    assert_eq!(reconnect_wait(None, 5_000), 0);
    let t = 1_000_000;
    assert_eq!(reconnect_wait(Some(t), t), 10_000);
    assert_eq!(reconnect_wait(Some(t), t + 4_000), 6_000);
    assert_eq!(reconnect_wait(Some(t), t + 10_000), 0);
    assert_eq!(reconnect_wait(Some(t), t + 12_000), 0);
    assert_eq!(reconnect_wait(Some(t), t - 1), 10_000);
}

#[test]
fn negotiation_requests_time_and_batch_only() {
    let mut negotiation = CapNegotiation::new();
    negotiation.receive(&ls_reply(false, "server-time batch"));
    assert!(negotiation.is_finished());
    assert_eq!(negotiation.requested(), vec![s("server-time"), s("batch")]);
}

#[test]
fn negotiation_joins_continued_listings() {
    let mut negotiation = CapNegotiation::new();
    negotiation.receive(&Message::new(Command::NOTICE(s("*"), s("hello"))));
    negotiation.receive(&ls_reply(true, "echo-message multi-prefix"));
    assert!(!negotiation.is_finished());
    negotiation.receive(&ls_reply(false, "labeled-response"));
    assert!(negotiation.is_finished());
    assert_eq!(
        negotiation.requested(),
        vec![s("echo-message"), s("labeled-response")]
    );
}

#[test]
fn negotiation_needs_both_echo_and_labels() {
    let mut negotiation = CapNegotiation::new();
    negotiation.receive(&ls_reply(false, "echo-message batch"));
    assert_eq!(negotiation.requested(), vec![s("batch")]);
}

#[test]
fn negotiation_ends_on_a_malformed_reply() {
    let mut negotiation = CapNegotiation::new();
    negotiation.receive(&ls_reply(true, "server-time"));
    assert!(!negotiation.was_cut_short());
    negotiation.receive(&Message::new(Command::CAP(Some(s("*")), s("LS"), None, None)));
    assert!(negotiation.is_finished());
    assert!(negotiation.was_cut_short());
    assert_eq!(negotiation.requested(), vec![s("server-time")]);
}

#[test]
fn negotiation_messages_on_the_wire() {
    assert_eq!(halloy_data::format::message(cap_ls()), "CAP LS 302\r\n");
    let request = cap_request(&vec![s("server-time"), s("batch")]);
    assert_eq!(halloy_data::format::message(request), "CAP REQ :server-time batch\r\n");
}

#[test]
fn messages_in_one_window_make_one_update() {
    let (mut supervisor, first) = Supervisor::new(Server::new(s("net")));
    assert!(matches!(
        first,
        Update::Disconnected {
            is_initial: true,
            error: None,
            ..
        }
    ));
    assert!(matches!(
        supervisor.connected(),
        Update::Connected {
            is_initial: true,
            ..
        }
    ));
    assert!(supervisor.tick().is_none());
    for text in ["one", "two", "three"] {
        supervisor.message(Message::new(Command::PRIVMSG(s("#a"), s(text))));
    }
    match supervisor.tick() {
        Some(Update::MessagesReceived(server, messages)) => {
            assert_eq!(server.name, "net");
            let texts: Vec<String> = messages
                .iter()
                .map(|m| match &m.command {
                    Command::PRIVMSG(_, text) => text.clone(),
                    _ => String::new(),
                })
                .collect();
            assert_eq!(texts, vec![s("one"), s("two"), s("three")]);
        }
        _ => panic!("expected one batch of messages"),
    }
    assert!(supervisor.tick().is_none());
}

#[test]
fn reconnects_are_not_initial() {
    let (mut supervisor, _) = Supervisor::new(Server::new(s("net")));
    assert_eq!(supervisor.connect_delay(0), 0);
    supervisor.connected();
    let update = supervisor.transport_error(s("reset"), 2_000);
    assert!(matches!(
        update,
        Update::Disconnected {
            is_initial: false,
            error: Some(_),
            ..
        }
    ));
    assert_eq!(supervisor.connect_delay(3_000), 9_000);
    let failed = supervisor.connection_failed(s("refused"), 12_000);
    assert!(matches!(failed, Update::ConnectionFailed { .. }));
    assert_eq!(supervisor.connect_delay(24_000), 0);
    assert!(matches!(
        supervisor.connected(),
        Update::Connected {
            is_initial: false,
            ..
        }
    ));
}
