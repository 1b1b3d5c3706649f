use vstd::prelude::*;

use crate::text::{nick_key, to_chars, from_chars};

verus! {

/// The access levels a member holds in one channel.
#[derive(Clone, Copy, Debug, PartialEq, Eq, Structural)]
pub struct AccessLevels {
    pub owner: bool,
    pub admin: bool,
    pub oper: bool,
    pub half_op: bool,
    pub voice: bool,
}

/// One access level of a channel member.
#[derive(Clone, Copy, Debug, PartialEq, Eq, Structural)]
pub enum AccessLevel {
    Owner,
    Admin,
    Oper,
    HalfOp,
    Voice,
}

/// Whether a mode grants or revokes.
#[derive(Clone, Copy, Debug, PartialEq, Eq, Structural)]
pub enum Operation {
    Add,
    Remove,
}

pub open spec fn no_access() -> AccessLevels {
    AccessLevels { owner: false, admin: false, oper: false, half_op: false, voice: false }
}

/// `a` with `level` switched on (`on`) or off.
pub open spec fn set_level(a: AccessLevels, level: AccessLevel, on: bool) -> AccessLevels {
    match level {
        AccessLevel::Owner => AccessLevels { owner: on, ..a },
        AccessLevel::Admin => AccessLevels { admin: on, ..a },
        AccessLevel::Oper => AccessLevels { oper: on, ..a },
        AccessLevel::HalfOp => AccessLevels { half_op: on, ..a },
        AccessLevel::Voice => AccessLevels { voice: on, ..a },
    }
}

/// The rank of the highest level held: 5 for owner down to 1 for voice, 0 for none.
pub open spec fn rank(a: AccessLevels) -> nat {
    if a.owner {
        5
    } else if a.admin {
        4
    } else if a.oper {
        3
    } else if a.half_op {
        2
    } else if a.voice {
        1
    } else {
        0
    }
}

impl AccessLevels {
    pub fn none() -> (r: AccessLevels)
        ensures
            r == no_access(),
    {
        AccessLevels { owner: false, admin: false, oper: false, half_op: false, voice: false }
    }

    /// The rank of the highest level held.
    pub fn rank(&self) -> (r: u8)
        ensures
            r as nat == rank(*self),
    {
        if self.owner {
            5
        } else if self.admin {
            4
        } else if self.oper {
            3
        } else if self.half_op {
            2
        } else if self.voice {
            1
        } else {
            0
        }
    }
}

/// What the membership view keeps of a user: the nickname and the access levels.
pub struct UserView {
    pub nick: Seq<char>,
    pub access: AccessLevels,
}

/// A user as seen in one channel: nickname, optional username and hostname,
/// and the access levels held there.
pub struct User {
    pub nickname: String,
    pub username: Option<String>,
    pub hostname: Option<String>,
    pub access: AccessLevels,
}

/// A marker in front of a nickname in a names list, standing for an access level.
pub open spec fn is_marker(c: char) -> bool {
    c == '~' || c == '&' || c == '@' || c == '%' || c == '+'
}

/// The number of markers at the start of `s`.
pub open spec fn lead(s: Seq<char>) -> nat
    decreases s.len(),
{
    if s.len() > 0 && is_marker(s[0]) {
        1 + lead(s.drop_first())
    } else {
        0
    }
}

/// The index of the first `c` in `s`, or its length when there is none.
pub open spec fn find(s: Seq<char>, c: char) -> nat
    decreases s.len(),
{
    if s.len() == 0 {
        0
    } else if s[0] == c {
        0
    } else {
        1 + find(s.drop_first(), c)
    }
}

/// The access levels that the markers in `m` stand for.
pub open spec fn levels_of(m: Seq<char>) -> AccessLevels {
    AccessLevels {
        owner: m.contains('~'),
        admin: m.contains('&'),
        oper: m.contains('@'),
        half_op: m.contains('%'),
        voice: m.contains('+'),
    }
}

/// A names-list entry: access markers, then the nickname, then optionally `!`
/// and the rest of the user's mask. An entry with an empty nickname is no user.
pub open spec fn parse_entry(s: Seq<char>) -> Option<UserView> {
    let k = lead(s);
    let rest = s.subrange(k as int, s.len() as int);
    let nick = rest.subrange(0, find(rest, '!') as int);
    if nick.len() == 0 {
        None
    } else {
        Some(UserView { nick, access: levels_of(s.subrange(0, k as int)) })
    }
}

pub proof fn lemma_lead(s: Seq<char>, k: int)
    requires
        0 <= k <= s.len(),
        forall|j: int| 0 <= j < k ==> is_marker(#[trigger] s[j]),
        k == s.len() || !is_marker(s[k]),
    ensures
        lead(s) == k,
    decreases k,
{
    if k > 0 {
        assert forall|j: int| 0 <= j < k - 1 implies is_marker(#[trigger] s.drop_first()[j]) by {
            assert(s.drop_first()[j] == s[j + 1]);
        }
        lemma_lead(s.drop_first(), k - 1);
    }
}

pub proof fn lemma_find(s: Seq<char>, c: char, k: int)
    requires
        0 <= k <= s.len(),
        forall|j: int| 0 <= j < k ==> #[trigger] s[j] != c,
        k == s.len() || s[k] == c,
    ensures
        find(s, c) == k,
    decreases k,
{
    if k > 0 {
        assert forall|j: int| 0 <= j < k - 1 implies #[trigger] s.drop_first()[j] != c by {
            assert(s.drop_first()[j] == s[j + 1]);
        }
        lemma_find(s.drop_first(), c, k - 1);
    }
}

fn contains_char(s: &Vec<char>, end: usize, c: char) -> (r: bool)
    requires
        end <= s@.len(),
    ensures
        r == s@.subrange(0, end as int).contains(c),
{
    let mut i: usize = 0;
    while i < end
        invariant
            end <= s@.len(),
            i <= end,
            forall|j: int| 0 <= j < i ==> s@[j] != c,
        decreases end - i,
    {
        if s[i] == c {
            assert(s@.subrange(0, end as int)[i as int] == c);
            return true;
        }
        i = i + 1;
    }
    false
}

impl User {
    pub open spec fn view(&self) -> UserView {
        UserView { nick: self.nickname@, access: self.access }
    }

    /// A user with no access level.
    pub fn new(nickname: String, username: Option<String>, hostname: Option<String>) -> (r: User)
        ensures
            r.nickname == nickname,
            r.username == username,
            r.hostname == hostname,
            r.access == no_access(),
    {
        User { nickname, username, hostname, access: AccessLevels::none() }
    }

    pub fn nickname(&self) -> (r: &str)
        ensures
            r@ == self.nickname@,
    {
        self.nickname.as_str()
    }

    /// The same user under another nickname; the access levels stay.
    pub fn with_nickname(self, nickname: String) -> (r: User)
        ensures
            r.nickname == nickname,
            r.username == self.username,
            r.hostname == self.hostname,
            r.access == self.access,
    {
        User { nickname, ..self }
    }

    /// Grants or revokes one access level.
    pub fn update_access_level(&mut self, op: Operation, level: AccessLevel)
        ensures
            final(self).nickname == old(self).nickname,
            final(self).username == old(self).username,
            final(self).hostname == old(self).hostname,
            final(self).access == set_level(old(self).access, level, op == Operation::Add),
    {
        let on = match op {
            Operation::Add => true,
            Operation::Remove => false,
        };
        match level {
            AccessLevel::Owner => self.access.owner = on,
            AccessLevel::Admin => self.access.admin = on,
            AccessLevel::Oper => self.access.oper = on,
            AccessLevel::HalfOp => self.access.half_op = on,
            AccessLevel::Voice => self.access.voice = on,
        }
    }

    /// Reads one entry of a names list, such as `@alice` or `+bob!b@host`.
    pub fn parse(entry: &str) -> (r: Option<User>)
        ensures
            r is None <==> parse_entry(entry@) is None,
            r matches Some(u) ==> parse_entry(entry@) == Some(u.view()) && u.username is None
                && u.hostname is None,
    {
        let s = to_chars(entry);
        let n = s.len();
        let mut k: usize = 0;
        while k < n && (s[k] == '~' || s[k] == '&' || s[k] == '@' || s[k] == '%' || s[k] == '+')
            invariant
                s@ == entry@,
                n == s@.len(),
                k <= n,
                forall|j: int| 0 <= j < k ==> is_marker(#[trigger] s@[j]),
            decreases n - k,
        {
            k = k + 1;
        }
        proof {
            lemma_lead(s@, k as int);
        }
        let mut e: usize = k;
        while e < n && s[e] != '!'
            invariant
                s@ == entry@,
                n == s@.len(),
                k <= e <= n,
                forall|j: int| k <= j < e ==> #[trigger] s@[j] != '!',
            decreases n - e,
        {
            e = e + 1;
        }
        let ghost rest = s@.subrange(k as int, n as int);
        proof {
            assert forall|j: int| 0 <= j < e - k implies #[trigger] rest[j] != '!' by {
                assert(rest[j] == s@[j + k]);
            }
            lemma_find(rest, '!', e - k);
        }
        if e == k {
            return None;
        }
        let mut nick_chars: Vec<char> = Vec::new();
        let mut i: usize = k;
        while i < e
            invariant
                s@ == entry@,
                k <= i <= e <= n,
                n == s@.len(),
                nick_chars@ == s@.subrange(k as int, i as int),
            decreases e - i,
        {
            nick_chars.push(s[i]);
            i = i + 1;
            assert(nick_chars@ =~= s@.subrange(k as int, i as int));
        }
        let nickname = from_chars(nick_chars.as_slice());
        let access = AccessLevels {
            owner: contains_char(&s, k, '~'),
            admin: contains_char(&s, k, '&'),
            oper: contains_char(&s, k, '@'),
            half_op: contains_char(&s, k, '%'),
            voice: contains_char(&s, k, '+'),
        };
        assert(nickname@ =~= rest.subrange(0, find(rest, '!') as int));
        Some(User { nickname, username: None, hostname: None, access })
    }
}

/// Whether `us` holds a user with nickname key `k`.
pub open spec fn has_user(us: Seq<UserView>, k: Seq<u32>) -> bool {
    exists|i: int| 0 <= i < us.len() && nick_key(#[trigger] us[i].nick) == k
}

} // verus!
