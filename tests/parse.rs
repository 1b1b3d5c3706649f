use halloy_data::parse::{command_from, parse_line};
use halloy_data::proto::{Command, Prefix};
use halloy_data::stream::{cap_end, pong_for};

fn s(text: &str) -> String {
    text.to_string()
}

#[test]
fn parses_tags_prefix_command_and_trailing() {
    let m = parse_line("@label=L1;batch=b\\s1;flag :alice!a@host.example PRIVMSG #chan :hello there\r\n")
        .unwrap();
    assert_eq!(m.tags.len(), 3);
    assert_eq!(m.tags[0].key, "label");
    assert_eq!(m.tags[0].value.as_deref(), Some("L1"));
    assert_eq!(m.tags[1].value.as_deref(), Some("b 1"));
    assert_eq!(m.tags[2].key, "flag");
    assert!(m.tags[2].value.is_none());
    match &m.prefix {
        Some(Prefix::Nickname(n, u, h)) => {
            assert_eq!(n, "alice");
            assert_eq!(u, "a");
            assert_eq!(h, "host.example");
        }
        _ => panic!("expected a user prefix"),
    }
    match &m.command {
        Command::PRIVMSG(target, text) => {
            assert_eq!(target, "#chan");
            assert_eq!(text, "hello there");
        }
        _ => panic!("expected a PRIVMSG"),
    }
}

#[test]
fn parses_numerics_and_server_prefixes() {
    let m = parse_line(":irc.example.org 353 me = #a :@bob carol").unwrap();
    assert!(matches!(&m.prefix, Some(Prefix::ServerName(n)) if n == "irc.example.org"));
    match &m.command {
        Command::Numeric(353, args) => {
            assert_eq!(args, &vec![s("me"), s("="), s("#a"), s("@bob carol")]);
        }
        _ => panic!("expected a numeric reply"),
    }
    assert!(parse_line("").is_none());
    assert!(parse_line(":only.a.prefix").is_none());
}

#[test]
fn builds_commands_from_names() {
    assert!(matches!(
        command_from(s("CAP"), vec![s("*"), s("LS"), s("sasl")]),
        Command::CAP(Some(_), _, Some(_), None)
    ));
    assert!(matches!(command_from(s("PING"), vec![s("t")]), Command::PING(_)));
    assert!(matches!(
        command_from(s("FOO"), vec![s("x")]),
        Command::Unknown(ref n, _) if n == "FOO"
    ));
    assert!(matches!(command_from(s("12a"), vec![]), Command::Unknown(..)));
}

#[test]
fn ping_gets_a_pong() {
    let ping = parse_line("PING :token").unwrap();
    match pong_for(&ping).map(|m| m.command) {
        Some(Command::PONG(token)) => assert_eq!(token, "token"),
        _ => panic!("expected a PONG"),
    }
    assert!(pong_for(&parse_line("NOTICE * hi").unwrap()).is_none());
    assert_eq!(halloy_data::format::message(cap_end()), "CAP END\r\n");
}
