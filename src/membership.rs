use vstd::prelude::*;

use crate::mode::{access_of, access_of_exec, mode_views, Mode, ModeView};
use crate::proto::strs;
use crate::text::{nick_key, same_nick};
use crate::user::{has_user, parse_entry, set_level, AccessLevel, Operation, User, UserView};

verus! {

/// What the membership view keeps of a channel: its name and its members in order.
pub struct ChannelView {
    pub name: Seq<char>,
    pub users: Seq<UserView>,
}

/// A joined channel and its members, each with the access levels held there.
pub struct Channel {
    pub name: String,
    pub users: Vec<User>,
}

pub open spec fn user_views(s: Seq<User>) -> Seq<UserView> {
    s.map_values(|u: User| u.view())
}

impl Channel {
    pub open spec fn view(&self) -> ChannelView {
        ChannelView { name: self.name@, users: user_views(self.users@) }
    }

    /// A channel with no members yet.
    pub fn empty(name: String) -> (r: Channel)
        ensures
            r.view() == (ChannelView { name: name@, users: Seq::empty() }),
    {
        let r = Channel { name, users: Vec::new() };
        assert(user_views(r.users@) =~= Seq::empty());
        r
    }
}

pub open spec fn chan_views(s: Seq<Channel>) -> Seq<ChannelView> {
    s.map_values(|c: Channel| c.view())
}

// ---------------------------------------------------------------------------
// The model: what each change does to the members of one channel.
/// `us` without the user whose nickname key is `k`.
pub open spec fn remove_user(us: Seq<UserView>, k: Seq<u32>) -> Seq<UserView>
    decreases us.len(),
{
    if us.len() == 0 {
        us
    } else {
        let r = remove_user(us.drop_last(), k);
        if nick_key(us.last().nick) == k {
            r
        } else {
            r.push(us.last())
        }
    }
}

/// `us` with `u` added, unless a user of that nickname is already there.
pub open spec fn insert_user(us: Seq<UserView>, u: UserView) -> Seq<UserView> {
    if has_user(us, nick_key(u.nick)) {
        us
    } else {
        us.push(u)
    }
}

/// `us` with every user of nickname key `k` renamed to `new`.
pub open spec fn rename_in(us: Seq<UserView>, k: Seq<u32>, new: Seq<char>) -> Seq<UserView>
    decreases us.len(),
{
    if us.len() == 0 {
        us
    } else {
        let r = rename_in(us.drop_last(), k, new);
        let u = us.last();
        if nick_key(u.nick) == k {
            r.push(UserView { nick: new, access: u.access })
        } else {
            r.push(u)
        }
    }
}

/// A nickname change: the user keeps the access levels under the new
/// nickname; where another user already holds the new nickname, the old entry
/// just leaves.
pub open spec fn rename_user(us: Seq<UserView>, k: Seq<u32>, new: Seq<char>) -> Seq<UserView> {
    if !has_user(us, k) {
        us
    } else if nick_key(new) != k && has_user(us, nick_key(new)) {
        remove_user(us, k)
    } else {
        rename_in(us, k, new)
    }
}

/// `us` with `level` switched on or off for the user of nickname key `k`.
pub open spec fn set_access_in(us: Seq<UserView>, k: Seq<u32>, level: AccessLevel, on: bool) -> Seq<
    UserView,
>
    decreases us.len(),
{
    if us.len() == 0 {
        us
    } else {
        let r = set_access_in(us.drop_last(), k, level, on);
        let u = us.last();
        if nick_key(u.nick) == k {
            r.push(UserView { nick: u.nick, access: set_level(u.access, level, on) })
        } else {
            r.push(u)
        }
    }
}

/// One mode applied to the members: only a member access mode with an
/// operation and an argument changes anything.
pub open spec fn apply_mode(us: Seq<UserView>, m: ModeView) -> Seq<UserView> {
    match (m.op, m.arg, access_of(m.letter)) {
        (Some(op), Some(a), Some(level)) => set_access_in(
            us,
            nick_key(a),
            level,
            op == Operation::Add,
        ),
        _ => us,
    }
}

/// The modes applied in order.
pub open spec fn apply_modes(us: Seq<UserView>, ms: Seq<ModeView>) -> Seq<UserView>
    decreases ms.len(),
{
    if ms.len() == 0 {
        us
    } else {
        apply_mode(apply_modes(us, ms.drop_last()), ms.last())
    }
}

/// The users of a names list added in order; entries that name no user are skipped.
pub open spec fn add_names(us: Seq<UserView>, entries: Seq<Seq<char>>) -> Seq<UserView>
    decreases entries.len(),
{
    if entries.len() == 0 {
        us
    } else {
        let r = add_names(us, entries.drop_last());
        match parse_entry(entries.last()) {
            Some(u) => insert_user(r, u),
            None => r,
        }
    }
}

/// A change that touches the members of channels.
pub enum ChanOp {
    /// the user of this nickname leaves every channel
    Quit(String),
    /// the user of the first nickname takes the second in every channel
    Rename(String, String),
    /// the user of this nickname leaves the named channel
    Part(String, String),
    /// this user enters the named channel
    Join(String, User),
    /// these modes apply to the members of the named channel
    Modes(String, Vec<Mode>),
    /// the users of these names-list entries enter the named channel
    Names(String, Vec<String>),
}

/// A change to the members of channels, in terms of the model.
pub enum MemberChange {
    Quit(Seq<u32>),
    Rename(Seq<u32>, Seq<char>),
    Part(Seq<char>, Seq<u32>),
    Join(Seq<char>, UserView),
    Modes(Seq<char>, Seq<ModeView>),
    Names(Seq<char>, Seq<Seq<char>>),
}

impl ChanOp {
    pub open spec fn view(&self) -> MemberChange {
        match self {
            ChanOp::Quit(n) => MemberChange::Quit(nick_key(n@)),
            ChanOp::Rename(old, new) => MemberChange::Rename(nick_key(old@), new@),
            ChanOp::Part(ch, n) => MemberChange::Part(ch@, nick_key(n@)),
            ChanOp::Join(ch, u) => MemberChange::Join(ch@, u.view()),
            ChanOp::Modes(ch, ms) => MemberChange::Modes(ch@, mode_views(ms@)),
            ChanOp::Names(ch, es) => MemberChange::Names(ch@, strs(es@)),
        }
    }
}

/// The members of channel `c` after `op`.
pub open spec fn op_users(c: ChannelView, op: MemberChange) -> Seq<UserView> {
    match op {
        MemberChange::Quit(k) => remove_user(c.users, k),
        MemberChange::Rename(k, new) => rename_user(c.users, k, new),
        MemberChange::Part(ch, k) => if c.name == ch {
            remove_user(c.users, k)
        } else {
            c.users
        },
        MemberChange::Join(ch, u) => if c.name == ch {
            insert_user(c.users, u)
        } else {
            c.users
        },
        MemberChange::Modes(ch, ms) => if c.name == ch {
            apply_modes(c.users, ms)
        } else {
            c.users
        },
        MemberChange::Names(ch, es) => if c.name == ch {
            add_names(c.users, es)
        } else {
            c.users
        },
    }
}

/// Every channel after `op`, in the same order.
pub open spec fn apply_op(cs: Seq<ChannelView>, op: MemberChange) -> Seq<ChannelView>
    decreases cs.len(),
{
    if cs.len() == 0 {
        cs
    } else {
        apply_op(cs.drop_last(), op).push(
            ChannelView { name: cs.last().name, users: op_users(cs.last(), op) },
        )
    }
}

/// The channels without the one named `name`.
pub open spec fn without_channel(cs: Seq<ChannelView>, name: Seq<char>) -> Seq<ChannelView>
    decreases cs.len(),
{
    if cs.len() == 0 {
        cs
    } else {
        let r = without_channel(cs.drop_last(), name);
        if cs.last().name == name {
            r
        } else {
            r.push(cs.last())
        }
    }
}

/// The names of the channels that hold a user of nickname key `k`, in order.
pub open spec fn member_channels(cs: Seq<ChannelView>, k: Seq<u32>) -> Seq<Seq<char>>
    decreases cs.len(),
{
    if cs.len() == 0 {
        Seq::empty()
    } else {
        let r = member_channels(cs.drop_last(), k);
        if has_user(cs.last().users, k) {
            r.push(cs.last().name)
        } else {
            r
        }
    }
}

// ---------------------------------------------------------------------------
// The executable side.
fn push_user(out: &mut Vec<User>, u: User)
    ensures
        user_views(final(out)@) == user_views(old(out)@).push(u.view()),
{
    out.push(u);
    assert(user_views(out@) =~= user_views(old(out)@).push(u.view()));
}

pub fn push_channel(out: &mut Vec<Channel>, c: Channel)
    ensures
        chan_views(final(out)@) == chan_views(old(out)@).push(c.view()),
{
    out.push(c);
    assert(chan_views(out@) =~= chan_views(old(out)@).push(c.view()));
}

proof fn lemma_prefix_views(s: Seq<User>, i: int)
    requires
        0 <= i < s.len(),
    ensures
        user_views(s.subrange(0, i + 1)).drop_last() == user_views(s.subrange(0, i)),
        user_views(s.subrange(0, i + 1)).last() == s[i].view(),
        user_views(s.subrange(0, i + 1)).len() > 0,
{
    assert(user_views(s.subrange(0, i + 1)).drop_last() =~= user_views(s.subrange(0, i)));
}

proof fn lemma_prefix_chan_views(s: Seq<Channel>, i: int)
    requires
        0 <= i < s.len(),
    ensures
        chan_views(s.subrange(0, i + 1)).drop_last() == chan_views(s.subrange(0, i)),
        chan_views(s.subrange(0, i + 1)).last() == s[i].view(),
        chan_views(s.subrange(0, i + 1)).len() > 0,
{
    assert(chan_views(s.subrange(0, i + 1)).drop_last() =~= chan_views(s.subrange(0, i)));
}

/// Whether `users` holds a user of the nickname `nick`.
pub fn has_nick(users: &Vec<User>, nick: &str) -> (r: bool)
    ensures
        r == has_user(user_views(users@), nick_key(nick@)),
{
    let mut i: usize = 0;
    while i < users.len()
        invariant
            i <= users@.len(),
            forall|j: int| 0 <= j < i ==> nick_key(#[trigger] users@[j].nickname@) != nick_key(nick@),
        decreases users@.len() - i,
    {
        if same_nick(users[i].nickname.as_str(), nick) {
            assert(user_views(users@)[i as int] == users@[i as int].view());
            assert(nick_key(user_views(users@)[i as int].nick) == nick_key(nick@));
            return true;
        }
        i = i + 1;
    }
    proof {
        if has_user(user_views(users@), nick_key(nick@)) {
            let j = choose|j: int|
                0 <= j < user_views(users@).len() && nick_key(
                    #[trigger] user_views(users@)[j].nick,
                ) == nick_key(nick@);
            assert(users@[j].nickname@ == user_views(users@)[j].nick);
        }
    }
    false
}

/// The members without the user of nickname `nick`.
pub fn remove_nick(users: Vec<User>, nick: &str) -> (r: Vec<User>)
    ensures
        user_views(r@) == remove_user(user_views(users@), nick_key(nick@)),
{
    let ghost orig = users@;
    let n = users.len();
    let mut rest = users;
    let mut out: Vec<User> = Vec::new();
    let mut i: usize = 0;
    while i < n
        invariant
            n == orig.len(),
            i <= n,
            rest@ == orig.subrange(i as int, n as int),
            user_views(out@) == remove_user(user_views(orig.subrange(0, i as int)), nick_key(nick@)),
        decreases n - i,
    {
        let u = rest.remove(0);
        proof {
            lemma_prefix_views(orig, i as int);
            assert(u == orig[i as int]);
        }
        if !same_nick(u.nickname.as_str(), nick) {
            push_user(&mut out, u);
        }
        i = i + 1;
        assert(rest@ =~= orig.subrange(i as int, n as int));
    }
    assert(orig.subrange(0, n as int) =~= orig);
    out
}

/// The members with `u` added unless its nickname is already there.
pub fn insert_member(users: Vec<User>, u: User) -> (r: Vec<User>)
    ensures
        user_views(r@) == insert_user(user_views(users@), u.view()),
{
    let mut users = users;
    if !has_nick(&users, u.nickname.as_str()) {
        push_user(&mut users, u);
    }
    users
}

/// The members with every user of nickname `nick` renamed to `new`.
fn rename_members(users: Vec<User>, nick: &str, new: &String) -> (r: Vec<User>)
    ensures
        user_views(r@) == rename_in(user_views(users@), nick_key(nick@), new@),
{
    let ghost orig = users@;
    let n = users.len();
    let mut rest = users;
    let mut out: Vec<User> = Vec::new();
    let mut i: usize = 0;
    while i < n
        invariant
            n == orig.len(),
            i <= n,
            rest@ == orig.subrange(i as int, n as int),
            user_views(out@) == rename_in(
                user_views(orig.subrange(0, i as int)),
                nick_key(nick@),
                new@,
            ),
        decreases n - i,
    {
        let u = rest.remove(0);
        proof {
            lemma_prefix_views(orig, i as int);
            assert(u == orig[i as int]);
        }
        if same_nick(u.nickname.as_str(), nick) {
            let renamed = u.with_nickname(new.clone());
            push_user(&mut out, renamed);
        } else {
            push_user(&mut out, u);
        }
        i = i + 1;
        assert(rest@ =~= orig.subrange(i as int, n as int));
    }
    assert(orig.subrange(0, n as int) =~= orig);
    out
}

/// The members after the user of nickname `nick` took the nickname `new`.
pub fn rename_nick(users: Vec<User>, nick: &str, new: &String) -> (r: Vec<User>)
    ensures
        user_views(r@) == rename_user(user_views(users@), nick_key(nick@), new@),
{
    if !has_nick(&users, nick) {
        users
    } else if !same_nick(new.as_str(), nick) && has_nick(&users, new.as_str()) {
        remove_nick(users, nick)
    } else {
        rename_members(users, nick, new)
    }
}

/// The members with `level` granted or revoked for the user of nickname `nick`.
fn set_access(users: Vec<User>, nick: &str, level: AccessLevel, op: Operation) -> (r: Vec<User>)
    ensures
        user_views(r@) == set_access_in(
            user_views(users@),
            nick_key(nick@),
            level,
            op == Operation::Add,
        ),
{
    let ghost orig = users@;
    let n = users.len();
    let mut rest = users;
    let mut out: Vec<User> = Vec::new();
    let mut i: usize = 0;
    while i < n
        invariant
            n == orig.len(),
            i <= n,
            rest@ == orig.subrange(i as int, n as int),
            user_views(out@) == set_access_in(
                user_views(orig.subrange(0, i as int)),
                nick_key(nick@),
                level,
                op == Operation::Add,
            ),
        decreases n - i,
    {
        let mut u = rest.remove(0);
        proof {
            lemma_prefix_views(orig, i as int);
            assert(u == orig[i as int]);
        }
        if same_nick(u.nickname.as_str(), nick) {
            u.update_access_level(op, level);
        }
        push_user(&mut out, u);
        i = i + 1;
        assert(rest@ =~= orig.subrange(i as int, n as int));
    }
    assert(orig.subrange(0, n as int) =~= orig);
    out
}

/// The members after the modes, applied in order.
pub fn apply_mode_list(users: Vec<User>, modes: &Vec<Mode>) -> (r: Vec<User>)
    ensures
        user_views(r@) == apply_modes(user_views(users@), mode_views(modes@)),
{
    let mut users = users;
    let mut i: usize = 0;
    let ghost start = user_views(users@);
    while i < modes.len()
        invariant
            i <= modes@.len(),
            user_views(users@) == apply_modes(start, mode_views(modes@.subrange(0, i as int))),
        decreases modes@.len() - i,
    {
        proof {
            assert(mode_views(modes@.subrange(0, i + 1)).drop_last() =~= mode_views(
                modes@.subrange(0, i as int),
            ));
            assert(mode_views(modes@.subrange(0, i + 1)).last() == modes@[i as int].view());
        }
        let m = &modes[i];
        match (&m.op, &m.arg, access_of_exec(m.letter)) {
            (Some(op), Some(arg), Some(level)) => {
                users = set_access(users, arg.as_str(), level, *op);
            },
            _ => {},
        }
        i = i + 1;
    }
    assert(modes@.subrange(0, modes@.len() as int) =~= modes@);
    users
}

/// The members with the users of a names list added.
pub fn add_name_list(users: Vec<User>, entries: &Vec<String>) -> (r: Vec<User>)
    ensures
        user_views(r@) == add_names(user_views(users@), strs(entries@)),
{
    let mut users = users;
    let mut i: usize = 0;
    let ghost start = user_views(users@);
    while i < entries.len()
        invariant
            i <= entries@.len(),
            user_views(users@) == add_names(start, strs(entries@.subrange(0, i as int))),
        decreases entries@.len() - i,
    {
        proof {
            assert(strs(entries@.subrange(0, i + 1)).drop_last() =~= strs(
                entries@.subrange(0, i as int),
            ));
            assert(strs(entries@.subrange(0, i + 1)).last() == entries@[i as int]@);
        }
        match User::parse(entries[i].as_str()) {
            Some(u) => {
                users = insert_member(users, u);
            },
            None => {},
        }
        i = i + 1;
    }
    assert(entries@.subrange(0, entries@.len() as int) =~= entries@);
    users
}

pub fn clone_user(u: &User) -> (r: User)
    ensures
        r == *u,
{
    User {
        nickname: u.nickname.clone(),
        username: match &u.username {
            Some(s) => Some(s.clone()),
            None => None,
        },
        hostname: match &u.hostname {
            Some(s) => Some(s.clone()),
            None => None,
        },
        access: u.access,
    }
}

/// One channel after `op`.
fn apply_to_channel(c: Channel, op: &ChanOp) -> (r: Channel)
    ensures
        r.view() == (ChannelView { name: c.view().name, users: op_users(c.view(), op.view()) }),
{
    let Channel { name, users } = c;
    let users = match op {
        ChanOp::Quit(n) => remove_nick(users, n.as_str()),
        ChanOp::Rename(old, new) => rename_nick(users, old.as_str(), new),
        ChanOp::Part(ch, n) => if name == *ch {
            remove_nick(users, n.as_str())
        } else {
            users
        },
        ChanOp::Join(ch, u) => if name == *ch {
            insert_member(users, clone_user(u))
        } else {
            users
        },
        ChanOp::Modes(ch, ms) => if name == *ch {
            apply_mode_list(users, ms)
        } else {
            users
        },
        ChanOp::Names(ch, es) => if name == *ch {
            add_name_list(users, es)
        } else {
            users
        },
    };
    Channel { name, users }
}

/// Every channel after `op`.
pub fn apply_to_all(chans: Vec<Channel>, op: &ChanOp) -> (r: Vec<Channel>)
    ensures
        chan_views(r@) == apply_op(chan_views(chans@), op.view()),
{
    let ghost orig = chans@;
    let n = chans.len();
    let mut rest = chans;
    let mut out: Vec<Channel> = Vec::new();
    let mut i: usize = 0;
    while i < n
        invariant
            n == orig.len(),
            i <= n,
            rest@ == orig.subrange(i as int, n as int),
            chan_views(out@) == apply_op(chan_views(orig.subrange(0, i as int)), op.view()),
        decreases n - i,
    {
        let c = rest.remove(0);
        proof {
            lemma_prefix_chan_views(orig, i as int);
            assert(c == orig[i as int]);
        }
        push_channel(&mut out, apply_to_channel(c, op));
        i = i + 1;
        assert(rest@ =~= orig.subrange(i as int, n as int));
    }
    assert(orig.subrange(0, n as int) =~= orig);
    out
}

/// The channels without the one named `name`.
pub fn remove_channel(chans: Vec<Channel>, name: &String) -> (r: Vec<Channel>)
    ensures
        chan_views(r@) == without_channel(chan_views(chans@), name@),
{
    let ghost orig = chans@;
    let n = chans.len();
    let mut rest = chans;
    let mut out: Vec<Channel> = Vec::new();
    let mut i: usize = 0;
    while i < n
        invariant
            n == orig.len(),
            i <= n,
            rest@ == orig.subrange(i as int, n as int),
            chan_views(out@) == without_channel(chan_views(orig.subrange(0, i as int)), name@),
        decreases n - i,
    {
        let c = rest.remove(0);
        proof {
            lemma_prefix_chan_views(orig, i as int);
            assert(c == orig[i as int]);
        }
        if c.name != *name {
            push_channel(&mut out, c);
        }
        i = i + 1;
        assert(rest@ =~= orig.subrange(i as int, n as int));
    }
    assert(orig.subrange(0, n as int) =~= orig);
    out
}

/// The names of the channels that hold a user of nickname `nick`, in order.
pub fn channels_of(chans: &Vec<Channel>, nick: &str) -> (r: Vec<String>)
    ensures
        strs(r@) == member_channels(chan_views(chans@), nick_key(nick@)),
{
    let mut out: Vec<String> = Vec::new();
    let mut i: usize = 0;
    while i < chans.len()
        invariant
            i <= chans@.len(),
            strs(out@) == member_channels(chan_views(chans@.subrange(0, i as int)), nick_key(nick@)),
        decreases chans@.len() - i,
    {
        proof {
            lemma_prefix_chan_views(chans@, i as int);
        }
        if has_nick(&chans[i].users, nick) {
            let ghost prev = out@;
            out.push(chans[i].name.clone());
            assert(strs(out@) =~= strs(prev).push(chans@[i as int].name@));
        }
        i = i + 1;
    }
    assert(chans@.subrange(0, chans@.len() as int) =~= chans@);
    out
}

// ---------------------------------------------------------------------------
// Facts about the model.
/// A change keeps the channels and their order, and touches each on its own.
pub proof fn lemma_apply_op_index(cs: Seq<ChannelView>, op: MemberChange)
    ensures
        apply_op(cs, op).len() == cs.len(),
        forall|i: int|
            0 <= i < cs.len() ==> #[trigger] apply_op(cs, op)[i] == (ChannelView {
                name: cs[i].name,
                users: op_users(cs[i], op),
            }),
    decreases cs.len(),
{
    if cs.len() > 0 {
        lemma_apply_op_index(cs.drop_last(), op);
        assert forall|i: int| 0 <= i < cs.len() implies #[trigger] apply_op(cs, op)[i] == (
        ChannelView { name: cs[i].name, users: op_users(cs[i], op) }) by {
            if i < cs.len() - 1 {
                assert(cs.drop_last()[i] == cs[i]);
            }
        }
    }
}

/// Renaming touches exactly the entries of the old nickname, and keeps their access levels.
pub proof fn lemma_rename_in_index(us: Seq<UserView>, k: Seq<u32>, new: Seq<char>)
    ensures
        rename_in(us, k, new).len() == us.len(),
        forall|j: int|
            0 <= j < us.len() ==> #[trigger] rename_in(us, k, new)[j] == if nick_key(us[j].nick)
                == k {
                UserView { nick: new, access: us[j].access }
            } else {
                us[j]
            },
    decreases us.len(),
{
    if us.len() > 0 {
        lemma_rename_in_index(us.drop_last(), k, new);
        assert forall|j: int| 0 <= j < us.len() implies #[trigger] rename_in(us, k, new)[j] == if nick_key(
            us[j].nick,
        ) == k {
            UserView { nick: new, access: us[j].access }
        } else {
            us[j]
        } by {
            if j < us.len() - 1 {
                assert(us.drop_last()[j] == us[j]);
            }
        }
    }
}

/// The channels listed for a nickname are exactly those that hold it.
pub proof fn lemma_member_channels(cs: Seq<ChannelView>, k: Seq<u32>, name: Seq<char>)
    ensures
        member_channels(cs, k).contains(name) <==> exists|i: int|
            0 <= i < cs.len() && #[trigger] cs[i].name == name && has_user(cs[i].users, k),
    decreases cs.len(),
{
    if cs.len() > 0 {
        let init = cs.drop_last();
        lemma_member_channels(init, k, name);
        let r = member_channels(init, k);
        if member_channels(cs, k).contains(name) {
            if has_user(cs.last().users, k) && cs.last().name == name {
                assert(cs[cs.len() - 1].name == name);
            } else {
                let p = choose|p: int| 0 <= p < member_channels(cs, k).len() && member_channels(cs, k)[p] == name;
                if has_user(cs.last().users, k) {
                    assert(p < r.len());
                    assert(r[p] == name);
                }
                assert(r.contains(name));
                let i = choose|i: int| 0 <= i < init.len() && #[trigger] init[i].name == name && has_user(init[i].users, k);
                assert(cs[i] == init[i]);
            }
        }
        if exists|i: int| 0 <= i < cs.len() && #[trigger] cs[i].name == name && has_user(cs[i].users, k) {
            let i = choose|i: int| 0 <= i < cs.len() && #[trigger] cs[i].name == name && has_user(cs[i].users, k);
            if i == cs.len() - 1 {
                assert(member_channels(cs, k).last() == name);
                assert(member_channels(cs, k)[member_channels(cs, k).len() - 1] == name);
            } else {
                assert(init[i] == cs[i]);
                assert(r.contains(name));
                let p = choose|p: int| 0 <= p < r.len() && r[p] == name;
                if has_user(cs.last().users, k) {
                    assert(member_channels(cs, k)[p] == name);
                } else {
                    assert(member_channels(cs, k)[p] == name);
                }
            }
        }
    }
}

} // verus!
