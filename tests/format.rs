use halloy_data::proto::{Command, Message, Tag};

fn s(text: &str) -> String {
    text.to_string()
}

#[test]
fn commands() {
    let tests = [
        Command::CAP(None, s("LS"), Some(s("302")), None),
        Command::PRIVMSG(s("#a"), s("nospace")),
        Command::PRIVMSG(s("b"), s("spa ces")),
        Command::QUIT(Some(s("nocolon"))),
        Command::QUIT(Some(s(":startscolon"))),
        Command::QUIT(Some(s("not:starting"))),
        Command::QUIT(Some(s("not:starting space"))),
        Command::Unknown(s("NOTICE"), vec![s("")]),
        Command::Unknown(s("NOTICE"), vec![s(" ")]),
        Command::USER(s("test"), s("test")),
    ];
    let expected = [
        "CAP LS 302\r\n",
        "PRIVMSG #a nospace\r\n",
        "PRIVMSG b :spa ces\r\n",
        "QUIT nocolon\r\n",
        "QUIT ::startscolon\r\n",
        "QUIT not:starting\r\n",
        "QUIT :not:starting space\r\n",
        "NOTICE :\r\n",
        "NOTICE : \r\n",
        "USER test 0 * test\r\n",
    ];

    for (test, expected) in tests.into_iter().zip(expected) {
        let formatted = halloy_data::format::message(Message::new(test));
        assert_eq!(formatted, expected);
    }
}

#[test]
fn tags() {
    let test = vec![
        Tag {
            key: "tag".into(),
            value: Some("as\\; \r\n".into()),
        },
        Tag {
            key: "id".into(),
            value: Some("234AB".into()),
        },
        Tag {
            key: "test".into(),
            value: None,
        },
    ];
    let expected = r"tag=as\\\:\s\r\n;id=234AB;test";

    let tags = halloy_data::format::tags(test);
    assert_eq!(tags, expected);
}

#[test]
fn message_with_tags_starts_with_at_sign() {
    let mut message = Message::new(Command::PRIVMSG(s("#a"), s("hi there")));
    message.tags = vec![Tag {
        key: s("label"),
        value: Some(s("7")),
    }];
    assert_eq!(halloy_data::format::message(message), "@label=7 PRIVMSG #a :hi there\r\n");
}

#[test]
fn numeric_names_have_three_digits() {
    let welcome = Message::new(Command::Numeric(1, vec![s("me"), s("Welcome home")]));
    assert_eq!(halloy_data::format::message(welcome), "001 me :Welcome home\r\n");
    let names = Message::new(Command::Numeric(353, vec![s("me"), s("="), s("#x"), s("a b")]));
    assert_eq!(halloy_data::format::message(names), "353 me = #x :a b\r\n");
}

#[test]
fn trailing_parameter_marking() {
    assert_eq!(halloy_data::format::trailing("plain"), "plain");
    assert_eq!(halloy_data::format::trailing(""), ":");
    assert_eq!(halloy_data::format::trailing("two words"), ":two words");
    assert_eq!(halloy_data::format::trailing(":colon"), "::colon");
    assert_eq!(halloy_data::format::parameters(vec![]), "");
    assert_eq!(halloy_data::format::parameters(vec![s("a"), s("b c")]), "a :b c");
}

#[test]
fn tag_escaping_of_each_special_character() {
    let t = Tag {
        key: s("k"),
        value: Some(s("a;b c\\d\re\nf")),
    };
    assert_eq!(halloy_data::format::tag(&t), r"k=a\:b\sc\\d\re\nf");
    let bare = Tag {
        key: s("flag"),
        value: None,
    };
    assert_eq!(halloy_data::format::tag(&bare), "flag");
    assert_eq!(halloy_data::format::tags(vec![]), "");
}
