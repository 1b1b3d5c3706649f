use vstd::prelude::*;

use crate::text::{push_char, to_chars};
use crate::user::User;

verus! {

/// Who a message of a conversation is from.
pub enum Sender {
    User(User),
    Server,
}

impl Sender {
    pub fn user(&self) -> (r: Option<&User>)
        ensures
            self matches Sender::User(u) ==> r == Some(u),
            self is Server ==> r is None,
    {
        match self {
            Sender::User(user) => Some(user),
            Sender::Server => None,
        }
    }
}

/// Whether a message was sent or received.
#[derive(Clone, Copy, Debug, PartialEq, Eq, Structural)]
pub enum Direction {
    Sent,
    Received,
}

/// How much of a history to show: the first or the last so many messages, or
/// those since a point in time (seconds since the epoch).
#[derive(Clone, Copy, Debug, PartialEq, Eq, Structural)]
pub enum Limit {
    Top(usize),
    Bottom(usize),
    Since(u64),
}

/// By how many messages a limit grows at a time.
pub const DEFAULT_STEP: usize = 50;

/// How many messages a limit starts with.
pub const DEFAULT_COUNT: usize = 500;

/// `n` more, or the largest count where that does not fit.
pub open spec fn grown(value: usize, n: usize) -> usize {
    if value + n <= usize::MAX {
        (value + n) as usize
    } else {
        usize::MAX
    }
}

impl Limit {
    pub fn top() -> (r: Limit)
        ensures
            r == Limit::Top(DEFAULT_COUNT),
    {
        Limit::Top(DEFAULT_COUNT)
    }

    pub fn bottom() -> (r: Limit)
        ensures
            r == Limit::Bottom(DEFAULT_COUNT),
    {
        Limit::Bottom(DEFAULT_COUNT)
    }

    /// Lets a count limit take `n` more messages; a time limit stays.
    pub fn increase(&mut self, n: usize)
        ensures
            *old(self) matches Limit::Top(v) ==> *final(self) == Limit::Top(grown(v, n)),
            *old(self) matches Limit::Bottom(v) ==> *final(self) == Limit::Bottom(grown(v, n)),
            *old(self) is Since ==> *final(self) == *old(self),
    {
        match self {
            Limit::Top(v) => {
                *self = Limit::Top(grow(*v, n));
            },
            Limit::Bottom(v) => {
                *self = Limit::Bottom(grow(*v, n));
            },
            Limit::Since(_) => {},
        }
    }
}

fn grow(value: usize, n: usize) -> (r: usize)
    ensures
        r == grown(value, n),
{
    if value <= usize::MAX - n {
        value + n
    } else {
        usize::MAX
    }
}

/// The marker that opens an action message.
pub open spec fn action_prefix() -> Seq<char> {
    seq!['\u{1}', 'A', 'C', 'T', 'I', 'O', 'N', ' ']
}

/// The action that a message text describes, if it is an action: the text
/// between the opening marker and a closing `\u{1}`.
pub open spec fn action_of(text: Seq<char>) -> Option<Seq<char>> {
    if text.len() >= 9 && text.subrange(0, 8) == action_prefix() && text.last() == '\u{1}' {
        Some(text.subrange(8, text.len() - 1))
    } else {
        None
    }
}

fn action_part(text: &str) -> (r: Option<Vec<char>>)
    ensures
        r is None <==> action_of(text@) is None,
        r matches Some(a) ==> action_of(text@) == Some(a@),
{
    let s = to_chars(text);
    let n = s.len();
    if n < 9 {
        return None;
    }
    let opens = s[0] == '\u{1}' && s[1] == 'A' && s[2] == 'C' && s[3] == 'T' && s[4] == 'I' && s[5]
        == 'O' && s[6] == 'N' && s[7] == ' ';
    proof {
        if s@.subrange(0, 8) == action_prefix() {
            assert(s@.subrange(0, 8)[0] == s@[0]);
            assert(s@.subrange(0, 8)[1] == s@[1]);
            assert(s@.subrange(0, 8)[2] == s@[2]);
            assert(s@.subrange(0, 8)[3] == s@[3]);
            assert(s@.subrange(0, 8)[4] == s@[4]);
            assert(s@.subrange(0, 8)[5] == s@[5]);
            assert(s@.subrange(0, 8)[6] == s@[6]);
            assert(s@.subrange(0, 8)[7] == s@[7]);
        }
        if opens {
            assert(s@.subrange(0, 8) =~= action_prefix());
        }
    }
    if !opens || s[n - 1] != '\u{1}' {
        return None;
    }
    let mut action: Vec<char> = Vec::new();
    let mut i: usize = 8;
    while i < n - 1
        invariant
            s@ == text@,
            n == s@.len(),
            n >= 9,
            8 <= i <= n - 1,
            action@ == s@.subrange(8, i as int),
        decreases n - 1 - i,
    {
        action.push(s[i]);
        i = i + 1;
        assert(action@ =~= s@.subrange(8, i as int));
    }
    Some(action)
}

/// Whether a message text is an action.
pub fn is_action(text: &str) -> (r: bool)
    ensures
        r == (action_of(text@) is Some),
{
    action_part(text).is_some()
}

/// How an action is shown: ` ∙ `, the nickname, a space and the action.
pub open spec fn action_line(nick: Seq<char>, action: Seq<char>) -> Seq<char> {
    seq![' ', '\u{2219}', ' '] + nick + seq![' '] + action
}

/// The line that shows an action of `nick`; none where `text` is no action.
pub fn action_text(nick: &str, text: &str) -> (r: Option<String>)
    ensures
        action_of(text@) is None ==> r is None,
        action_of(text@) matches Some(a) ==> (r matches Some(line) && line@ == action_line(
            nick@,
            a,
        )),
{
    match action_part(text) {
        None => None,
        Some(action) => {
            let mut line = String::new();
            push_char(&mut line, ' ');
            push_char(&mut line, '\u{2219}');
            push_char(&mut line, ' ');
            line.append(nick);
            push_char(&mut line, ' ');
            let mut i: usize = 0;
            let ghost start = line@;
            while i < action.len()
                invariant
                    i <= action@.len(),
                    line@ == start + action@.subrange(0, i as int),
                decreases action@.len() - i,
            {
                push_char(&mut line, action[i]);
                i = i + 1;
                assert(line@ =~= start + action@.subrange(0, i as int));
            }
            assert(action@.subrange(0, action@.len() as int) =~= action@);
            assert(line@ =~= action_line(nick@, action@));
            Some(line)
        },
    }
}

} // verus!
