use vstd::prelude::*;

use crate::text::{decimal, to_chars, to_decimal};
use crate::user::{no_access, User};

verus! {

/// The text values of a sequence of strings.
pub open spec fn strs(v: Seq<String>) -> Seq<Seq<char>> {
    v.map_values(|s: String| s@)
}

/// An optional parameter, as zero or one parameters.
pub open spec fn opt_param(o: Option<String>) -> Seq<Seq<char>> {
    match o {
        Some(s) => seq![s@],
        None => Seq::empty(),
    }
}

/// A message tag: a key with an optional value.
pub struct Tag {
    pub key: String,
    pub value: Option<String>,
}

/// Where a message comes from: a user (nickname, username, hostname) or a server.
pub enum Prefix {
    Nickname(String, String, String),
    ServerName(String),
}

/// Numeric replies the session reacts to.
pub const RPL_WELCOME: u16 = 1;
pub const RPL_ENDOFWHO: u16 = 315;
pub const RPL_ENDOFWHOWAS: u16 = 369;
pub const RPL_ENDOFWHOIS: u16 = 318;
pub const RPL_NAMREPLY: u16 = 353;
pub const ERR_NOSUCHNICK: u16 = 401;
pub const ERR_NOSUCHSERVER: u16 = 402;
pub const ERR_WASNOSUCHNICK: u16 = 406;
pub const ERR_NONICKNAMEGIVEN: u16 = 431;
pub const ERR_NEEDMOREPARAMS: u16 = 461;

/// The commands of the protocol that the session distinguishes; every other
/// command is carried as `Unknown` with its name and parameters.
pub enum Command {
    /// target, subcommand, first and second argument
    CAP(Option<String>, String, Option<String>, Option<String>),
    /// `+reference` or `-reference`, then further parameters
    BATCH(String, Vec<String>),
    /// username, realname
    USER(String, String),
    NICK(String),
    QUIT(Option<String>),
    /// channel, optional keys
    JOIN(String, Option<String>),
    /// channel, optional reason
    PART(String, Option<String>),
    /// target, optional mode string, mode arguments
    MODE(String, Option<String>, Vec<String>),
    PRIVMSG(String, String),
    NOTICE(String, String),
    /// optional mask
    WHO(Option<String>),
    /// optional server, nickname
    WHOIS(Option<String>, String),
    /// nickname, optional count
    WHOWAS(String, Option<String>),
    PING(String),
    PONG(String),
    /// a numeric reply below 1000 and its parameters
    Numeric(u16, Vec<String>),
    /// any other command name and its parameters
    Unknown(String, Vec<String>),
}

/// The name of a numeric reply: its code in three digits.
pub open spec fn numeric_name(code: nat) -> Seq<char> {
    if code < 10 {
        "00"@ + decimal(code)
    } else if code < 100 {
        "0"@ + decimal(code)
    } else {
        decimal(code)
    }
}

impl Command {
    /// The command's name on the wire.
    pub open spec fn name_view(&self) -> Seq<char> {
        match self {
            Command::CAP(..) => "CAP"@,
            Command::BATCH(..) => "BATCH"@,
            Command::USER(..) => "USER"@,
            Command::NICK(..) => "NICK"@,
            Command::QUIT(..) => "QUIT"@,
            Command::JOIN(..) => "JOIN"@,
            Command::PART(..) => "PART"@,
            Command::MODE(..) => "MODE"@,
            Command::PRIVMSG(..) => "PRIVMSG"@,
            Command::NOTICE(..) => "NOTICE"@,
            Command::WHO(..) => "WHO"@,
            Command::WHOIS(..) => "WHOIS"@,
            Command::WHOWAS(..) => "WHOWAS"@,
            Command::PING(..) => "PING"@,
            Command::PONG(..) => "PONG"@,
            Command::Numeric(code, _) => numeric_name(*code as nat),
            Command::Unknown(name, _) => name@,
        }
    }

    /// The command's parameters on the wire, in order.
    pub open spec fn params_view(&self) -> Seq<Seq<char>> {
        match self {
            Command::CAP(target, sub, a, b) => opt_param(*target) + seq![sub@] + opt_param(*a)
                + opt_param(*b),
            Command::BATCH(reference, rest) => seq![reference@] + strs(rest@),
            Command::USER(user, realname) => seq![user@, "0"@, "*"@, realname@],
            Command::NICK(nick) => seq![nick@],
            Command::QUIT(comment) => opt_param(*comment),
            Command::JOIN(channel, keys) => seq![channel@] + opt_param(*keys),
            Command::PART(channel, reason) => seq![channel@] + opt_param(*reason),
            Command::MODE(target, modes, args) => seq![target@] + opt_param(*modes) + strs(
                args@,
            ),
            Command::PRIVMSG(target, text) => seq![target@, text@],
            Command::NOTICE(target, text) => seq![target@, text@],
            Command::WHO(mask) => opt_param(*mask),
            Command::WHOIS(server, nick) => opt_param(*server) + seq![nick@],
            Command::WHOWAS(nick, count) => seq![nick@] + opt_param(*count),
            Command::PING(token) => seq![token@],
            Command::PONG(token) => seq![token@],
            Command::Numeric(_, args) => strs(args@),
            Command::Unknown(_, args) => strs(args@),
        }
    }

    /// The command's name on the wire.
    pub fn command(&self) -> (r: String)
        requires
            self is Numeric ==> self->Numeric_0 < 1000,
        ensures
            r@ == self.name_view(),
    {
        match self {
            Command::CAP(..) => String::from_str("CAP"),
            Command::BATCH(..) => String::from_str("BATCH"),
            Command::USER(..) => String::from_str("USER"),
            Command::NICK(..) => String::from_str("NICK"),
            Command::QUIT(..) => String::from_str("QUIT"),
            Command::JOIN(..) => String::from_str("JOIN"),
            Command::PART(..) => String::from_str("PART"),
            Command::MODE(..) => String::from_str("MODE"),
            Command::PRIVMSG(..) => String::from_str("PRIVMSG"),
            Command::NOTICE(..) => String::from_str("NOTICE"),
            Command::WHO(..) => String::from_str("WHO"),
            Command::WHOIS(..) => String::from_str("WHOIS"),
            Command::WHOWAS(..) => String::from_str("WHOWAS"),
            Command::PING(..) => String::from_str("PING"),
            Command::PONG(..) => String::from_str("PONG"),
            Command::Numeric(code, _) => {
                let digits = to_decimal(*code as u64);
                if *code < 10 {
                    String::from_str("00").concat(digits.as_str())
                } else if *code < 100 {
                    String::from_str("0").concat(digits.as_str())
                } else {
                    digits
                }
            },
            Command::Unknown(name, _) => name.clone(),
        }
    }
}

fn push_opt(v: &mut Vec<String>, o: &Option<String>)
    ensures
        strs(final(v)@) == strs(old(v)@) + opt_param(*o),
{
    match o {
        Some(s) => {
            v.push(s.clone());
            assert(strs(v@) =~= strs(old(v)@) + opt_param(*o));
        },
        None => {
            assert(strs(v@) =~= strs(old(v)@) + opt_param(*o));
        },
    }
}

fn push_str(v: &mut Vec<String>, s: &String)
    ensures
        strs(final(v)@) == strs(old(v)@).push(s@),
{
    v.push(s.clone());
    assert(strs(v@) =~= strs(old(v)@).push(s@));
}

fn push_all(v: &mut Vec<String>, extra: &Vec<String>)
    ensures
        strs(final(v)@) == strs(old(v)@) + strs(extra@),
{
    let mut i: usize = 0;
    let ghost start = strs(v@);
    while i < extra.len()
        invariant
            i <= extra@.len(),
            strs(v@) == start + strs(extra@.subrange(0, i as int)),
        decreases extra@.len() - i,
    {
        push_str(v, &extra[i]);
        i = i + 1;
        assert(strs(extra@.subrange(0, i as int)) =~= strs(extra@.subrange(0, i - 1)).push(
            extra@[i - 1]@,
        ));
        assert(strs(v@) =~= start + strs(extra@.subrange(0, i as int)));
    }
    assert(extra@.subrange(0, extra@.len() as int) =~= extra@);
}

impl Command {
    /// The command's parameters on the wire, in order.
    pub fn parameters(&self) -> (r: Vec<String>)
        ensures
            strs(r@) == self.params_view(),
    {
        let mut r: Vec<String> = Vec::new();
        assert(strs(r@) =~= Seq::empty());
        match self {
            Command::CAP(target, sub, a, b) => {
                push_opt(&mut r, target);
                push_str(&mut r, sub);
                push_opt(&mut r, a);
                push_opt(&mut r, b);
            },
            Command::BATCH(reference, rest) => {
                push_str(&mut r, reference);
                push_all(&mut r, rest);
            },
            Command::USER(user, realname) => {
                push_str(&mut r, user);
                push_str(&mut r, &String::from_str("0"));
                push_str(&mut r, &String::from_str("*"));
                push_str(&mut r, realname);
            },
            Command::NICK(nick) => {
                push_str(&mut r, nick);
            },
            Command::QUIT(comment) => {
                push_opt(&mut r, comment);
            },
            Command::JOIN(channel, keys) => {
                push_str(&mut r, channel);
                push_opt(&mut r, keys);
            },
            Command::PART(channel, reason) => {
                push_str(&mut r, channel);
                push_opt(&mut r, reason);
            },
            Command::MODE(target, modes, args) => {
                push_str(&mut r, target);
                push_opt(&mut r, modes);
                push_all(&mut r, args);
            },
            Command::PRIVMSG(target, text) => {
                push_str(&mut r, target);
                push_str(&mut r, text);
            },
            Command::NOTICE(target, text) => {
                push_str(&mut r, target);
                push_str(&mut r, text);
            },
            Command::WHO(mask) => {
                push_opt(&mut r, mask);
            },
            Command::WHOIS(server, nick) => {
                push_opt(&mut r, server);
                push_str(&mut r, nick);
            },
            Command::WHOWAS(nick, count) => {
                push_str(&mut r, nick);
                push_opt(&mut r, count);
            },
            Command::PING(token) => {
                push_str(&mut r, token);
            },
            Command::PONG(token) => {
                push_str(&mut r, token);
            },
            Command::Numeric(_, args) => {
                push_all(&mut r, args);
            },
            Command::Unknown(_, args) => {
                push_all(&mut r, args);
            },
        }
        assert(strs(r@) =~= self.params_view());
        r
    }
}

/// A message of the protocol: tags, an optional prefix and a command.
pub struct Message {
    pub tags: Vec<Tag>,
    pub prefix: Option<Prefix>,
    pub command: Command,
}

impl Message {
    /// A message with no tags and no prefix.
    pub fn new(command: Command) -> (r: Message)
        ensures
            r.tags@.len() == 0,
            r.prefix is None,
            r.command == command,
    {
        Message { tags: Vec::new(), prefix: None, command }
    }
}

/// What the session sees of a message.
pub struct MsgView {
    pub tags: Seq<Tag>,
    pub prefix: Option<Prefix>,
    pub command: Command,
}

impl Message {
    pub open spec fn view(&self) -> MsgView {
        MsgView { tags: self.tags@, prefix: self.prefix, command: self.command }
    }
}

/// An empty field of a prefix stands for an absent one.
pub open spec fn non_empty(s: String) -> Option<String> {
    if s@.len() == 0 {
        None
    } else {
        Some(s)
    }
}

/// The user that a prefix names, with no access level; none for a server.
pub open spec fn prefix_user(p: Option<Prefix>) -> Option<User> {
    match p {
        Some(Prefix::Nickname(n, u, h)) => Some(
            User { nickname: n, username: non_empty(u), hostname: non_empty(h), access: no_access() },
        ),
        _ => None,
    }
}

fn non_empty_exec(s: &String) -> (r: Option<String>)
    ensures
        r == non_empty(*s),
{
    if s.as_str().unicode_len() == 0 {
        None
    } else {
        Some(s.clone())
    }
}

impl Message {
    /// The user who sent the message, if a user did.
    pub fn user(&self) -> (r: Option<User>)
        ensures
            r == prefix_user(self.prefix),
    {
        match &self.prefix {
            Some(Prefix::Nickname(n, u, h)) => Some(
                User::new(n.clone(), non_empty_exec(u), non_empty_exec(h)),
            ),
            _ => None,
        }
    }
}

/// A channel name starts with one of the channel prefixes.
pub open spec fn is_channel_name(s: Seq<char>) -> bool {
    s.len() > 0 && (s[0] == '#' || s[0] == '&' || s[0] == '+' || s[0] == '!')
}

pub fn is_channel(target: &str) -> (r: bool)
    ensures
        r == is_channel_name(target@),
{
    let s = to_chars(target);
    s.len() > 0 && (s[0] == '#' || s[0] == '&' || s[0] == '+' || s[0] == '!')
}

} // verus!
