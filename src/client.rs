use vstd::prelude::*;

use crate::buffer::Buffer;
use crate::membership::{
    apply_op, apply_to_all, chan_views, channels_of, user_views, lemma_apply_op_index, lemma_member_channels,
    lemma_rename_in_index, member_channels, op_users, push_channel, remove_channel, rename_in,
    without_channel, ChanOp, Channel, ChannelView, MemberChange,
};
use crate::sort::{name_keys, sort_names, sort_users, sorted_keys, user_keys};
use crate::user::{has_user, UserView};
use crate::mode::{parse, parse_modes};
use crate::proto::{
    is_channel, is_channel_name, prefix_user, strs, Command, Message, MsgView, Tag, RPL_NAMREPLY,
    RPL_WELCOME,
};
use crate::text::{decimal, lemma_decimal_injective, nick_key, same_nick, split, split_on, to_chars, to_decimal, from_chars};
use crate::user::User;

verus! {

/// The connectivity of one server, as the registry reports it.
#[derive(Clone, Copy, Debug, PartialEq, Eq, Structural)]
pub enum Status {
    Unavailable,
    Connected,
    Disconnected,
}

impl Status {
    pub fn connected(&self) -> (r: bool)
        ensures
            r == (*self == Status::Connected),
    {
        match self {
            Status::Connected => true,
            _ => false,
        }
    }
}

/// Why a message was sent: the buffer it came from, and whether it was a
/// WHOIS, whose replies all go to that buffer.
pub enum Context {
    Buffer(Buffer),
    Whois(Buffer),
}

impl Context {
    pub open spec fn buffer_of(&self) -> Buffer {
        match self {
            Context::Buffer(b) => *b,
            Context::Whois(b) => *b,
        }
    }

    pub open spec fn for_command(command: Command, buffer: Buffer) -> Context {
        if command is WHOIS {
            Context::Whois(buffer)
        } else {
            Context::Buffer(buffer)
        }
    }

    pub fn new(message: &Message, buffer: Buffer) -> (r: Context)
        ensures
            r == Context::for_command(message.command, buffer),
    {
        match &message.command {
            Command::WHOIS(..) => Context::Whois(buffer),
            _ => Context::Buffer(buffer),
        }
    }

    pub fn is_whois(&self) -> (r: bool)
        ensures
            r == (self is Whois),
    {
        match self {
            Context::Whois(_) => true,
            Context::Buffer(_) => false,
        }
    }

    pub fn buffer(self) -> (r: Buffer)
        ensures
            r == self.buffer_of(),
    {
        match self {
            Context::Buffer(buffer) => buffer,
            Context::Whois(buffer) => buffer,
        }
    }
}

impl Clone for Context {
    fn clone(&self) -> (r: Self)
        ensures
            r == *self,
    {
        match self {
            Context::Buffer(b) => Context::Buffer(b.clone()),
            Context::Whois(b) => Context::Whois(b.clone()),
        }
    }
}

/// A change that concerns a user in several channels at once.
pub enum Brodcast {
    Quit { user: User, comment: Option<String>, channels: Vec<String> },
    Nickname { old_user: User, new_nick: String, ourself: bool, channels: Vec<String> },
}

/// What the session derives from one message.
pub enum Event {
    /// the message, and our nickname when it was handled
    Single(Message, String),
    /// the message, our nickname, and the buffer it belongs to
    WithTarget(Message, String, Buffer),
    Brodcast(Brodcast),
}

/// An event as the model sees it.
pub enum EventView {
    Single(MsgView, Seq<char>),
    WithTarget(MsgView, Seq<char>, Buffer),
    Quit(User, Option<String>, Seq<Seq<char>>),
    Nickname(User, String, bool, Seq<Seq<char>>),
}

impl Event {
    pub open spec fn view(&self) -> EventView {
        match self {
            Event::Single(m, n) => EventView::Single(m.view(), n@),
            Event::WithTarget(m, n, b) => EventView::WithTarget(m.view(), n@, *b),
            Event::Brodcast(Brodcast::Quit { user, comment, channels }) => EventView::Quit(
                *user,
                *comment,
                strs(channels@),
            ),
            Event::Brodcast(Brodcast::Nickname { old_user, new_nick, ourself, channels }) => {
                EventView::Nickname(*old_user, *new_nick, *ourself, strs(channels@))
            },
        }
    }
}

pub open spec fn event_views(s: Seq<Event>) -> Seq<EventView> {
    s.map_values(|e: Event| e.view())
}

/// An open batch: the context it inherited and the events gathered so far.
pub struct Batch {
    pub context: Option<Context>,
    pub events: Vec<Event>,
}

impl Batch {
    pub fn new(context: Option<Context>) -> (r: Batch)
        ensures
            r.context == context,
            r.events@.len() == 0,
    {
        Batch { context, events: Vec::new() }
    }
}

/// A label sent with a command and not yet answered.
pub struct PendingLabel {
    pub label: String,
    pub context: Context,
}

/// A batch that is open under a reference.
pub struct OpenBatch {
    pub reference: String,
    pub batch: Batch,
}

pub struct BatchView {
    pub reference: Seq<char>,
    pub context: Option<Context>,
    pub events: Seq<EventView>,
}

impl OpenBatch {
    pub open spec fn view(&self) -> BatchView {
        BatchView {
            reference: self.reference@,
            context: self.batch.context,
            events: event_views(self.batch.events@),
        }
    }
}

pub open spec fn batch_views(s: Seq<OpenBatch>) -> Seq<BatchView> {
    s.map_values(|b: OpenBatch| b.view())
}

/// The state of one session, as the model sees it.
pub struct SessionView {
    pub nick: Seq<char>,
    pub chans: Seq<ChannelView>,
    pub labels: Seq<PendingLabel>,
    pub batches: Seq<BatchView>,
    pub reroute: Option<Buffer>,
    pub supports_labels: bool,
}

// ---------------------------------------------------------------------------
// Looking things up by key: the first match, or the length when none matches.
pub open spec fn first_tag(tags: Seq<Tag>, key: Seq<char>) -> nat
    decreases tags.len(),
{
    if tags.len() == 0 {
        0
    } else if tags[0].key@ == key {
        0
    } else {
        1 + first_tag(tags.drop_first(), key)
    }
}

pub open spec fn first_label(ls: Seq<PendingLabel>, label: Seq<char>) -> nat
    decreases ls.len(),
{
    if ls.len() == 0 {
        0
    } else if ls[0].label@ == label {
        0
    } else {
        1 + first_label(ls.drop_first(), label)
    }
}

pub open spec fn first_batch(bs: Seq<BatchView>, reference: Seq<char>) -> nat
    decreases bs.len(),
{
    if bs.len() == 0 {
        0
    } else if bs[0].reference == reference {
        0
    } else {
        1 + first_batch(bs.drop_first(), reference)
    }
}

/// The value of the first tag with `key`, and the tags without it.
pub open spec fn take_tag(tags: Seq<Tag>, key: Seq<char>) -> (Option<String>, Seq<Tag>) {
    let i = first_tag(tags, key);
    if i < tags.len() {
        (tags[i as int].value, tags.remove(i as int))
    } else {
        (None, tags)
    }
}

/// The batches without the one under `reference`.
pub open spec fn without_batch(bs: Seq<BatchView>, reference: Seq<char>) -> Seq<BatchView> {
    let i = first_batch(bs, reference);
    if i < bs.len() {
        bs.remove(i as int)
    } else {
        bs
    }
}

/// The context of the batch named by a batch tag, if that batch is open.
pub open spec fn batch_context(bs: Seq<BatchView>, batch: Option<String>) -> Option<Context> {
    match batch {
        Some(b) => {
            let j = first_batch(bs, b@);
            if j < bs.len() {
                bs[j as int].context
            } else {
                None
            }
        },
        None => None,
    }
}

/// The context of a message, and the pending labels after it: a parent
/// context first; else the context of its label, which is then used up; else
/// the context of the open batch it belongs to.
pub open spec fn resolve(
    s: SessionView,
    label: Option<String>,
    batch: Option<String>,
    parent: Option<Context>,
) -> (Option<Context>, Seq<PendingLabel>) {
    if parent is Some {
        (parent, s.labels)
    } else {
        match label {
            Some(l) => {
                let i = first_label(s.labels, l@);
                if i < s.labels.len() {
                    (Some(s.labels[i as int].context), s.labels.remove(i as int))
                } else {
                    (batch_context(s.batches, batch), s.labels)
                }
            },
            None => (batch_context(s.batches, batch), s.labels),
        }
    }
}

pub open spec fn single(m: MsgView, nick: Seq<char>) -> Option<Seq<EventView>> {
    Some(seq![EventView::Single(m, nick)])
}

/// Whether a CAP ACK argument acknowledges labeled responses.
pub open spec fn acks_labels(caps: Seq<char>) -> bool {
    split_on(caps, ' ').contains("labeled-response"@)
}

/// A message without label or batch handling: redirection, then the change
/// that its command makes to the session, and the events derived from it.
pub open spec fn dispatch(s: SessionView, m: MsgView, ctx: Option<Context>) -> (
    SessionView,
    Option<Seq<EventView>>,
) {
    let nick = s.nick;
    if ctx matches Some(c) && c is Whois {
        (s, Some(seq![EventView::WithTarget(m, nick, ctx->0.buffer_of())]))
    } else if s.reroute is Some && (m.command is Numeric || m.command is Unknown) {
        (s, Some(seq![EventView::WithTarget(m, nick, s.reroute->0)]))
    } else {
        match m.command {
            Command::CAP(_, sub, a, b) if sub@ == "ACK"@ => {
                let caps = if b is None {
                    a
                } else {
                    b
                };
                match caps {
                    None => (s, None),
                    Some(c) => (
                        SessionView { supports_labels: s.supports_labels || acks_labels(c@), ..s },
                        single(m, nick),
                    ),
                }
            },
            Command::PRIVMSG(..) | Command::NOTICE(..) => {
                match prefix_user(m.prefix) {
                    Some(u) if nick_key(u.nickname@) == nick_key(nick) && ctx is Some => (s, None),
                    _ => (s, single(m, nick)),
                }
            },
            Command::NICK(new) => {
                match prefix_user(m.prefix) {
                    None => (s, None),
                    Some(u) => {
                        let k = nick_key(u.nickname@);
                        let ourself = k == nick_key(nick);
                        (
                            SessionView {
                                nick: if ourself {
                                    new@
                                } else {
                                    nick
                                },
                                chans: apply_op(s.chans, MemberChange::Rename(k, new@)),
                                ..s
                            },
                            Some(
                                seq![
                                    EventView::Nickname(
                                        u,
                                        new,
                                        ourself,
                                        member_channels(s.chans, k),
                                    ),
                                ],
                            ),
                        )
                    },
                }
            },
            Command::Numeric(code, args) if code == RPL_WELCOME => {
                if args@.len() > 0 {
                    (SessionView { nick: args@[0]@, ..s }, single(m, args@[0]@))
                } else {
                    (s, single(m, nick))
                }
            },
            Command::QUIT(comment) => {
                match prefix_user(m.prefix) {
                    None => (s, None),
                    Some(u) => {
                        let k = nick_key(u.nickname@);
                        (
                            SessionView { chans: apply_op(s.chans, MemberChange::Quit(k)), ..s },
                            Some(seq![EventView::Quit(u, comment, member_channels(s.chans, k))]),
                        )
                    },
                }
            },
            Command::PART(ch, _) => {
                match prefix_user(m.prefix) {
                    None => (s, None),
                    Some(u) => {
                        let k = nick_key(u.nickname@);
                        let chans = if k == nick_key(nick) {
                            without_channel(s.chans, ch@)
                        } else {
                            apply_op(s.chans, MemberChange::Part(ch@, k))
                        };
                        (SessionView { chans, ..s }, single(m, nick))
                    },
                }
            },
            Command::JOIN(ch, _) => {
                match prefix_user(m.prefix) {
                    None => (s, None),
                    Some(u) => {
                        let chans = if nick_key(u.nickname@) == nick_key(nick) {
                            without_channel(s.chans, ch@).push(
                                ChannelView { name: ch@, users: Seq::empty() },
                            )
                        } else {
                            apply_op(s.chans, MemberChange::Join(ch@, u.view()))
                        };
                        (SessionView { chans, ..s }, single(m, nick))
                    },
                }
            },
            Command::MODE(target, Some(modes), args) if is_channel_name(target@) => {
                let change = MemberChange::Modes(target@, parse_modes(modes@, strs(args@)));
                (SessionView { chans: apply_op(s.chans, change), ..s }, single(m, nick))
            },
            Command::Numeric(code, args) if code == RPL_NAMREPLY && args@.len() > 3 => {
                let change = MemberChange::Names(args@[2]@, split_on(args@[3]@, ' '));
                (SessionView { chans: apply_op(s.chans, change), ..s }, single(m, nick))
            },
            _ => (s, single(m, nick)),
        }
    }
}

/// A BATCH command: `+reference` opens a batch with the message's context;
/// `-reference` closes it, and its events go to the enclosing batch named by
/// the message's batch tag if that one is open, else they are the result.
pub open spec fn batch_command(
    s: SessionView,
    param: Seq<char>,
    batch: Option<String>,
    ctx: Option<Context>,
) -> (SessionView, Option<Seq<EventView>>) {
    if param.len() == 0 {
        (s, None)
    } else {
        let reference = param.drop_first();
        if param[0] == '+' {
            let opened = BatchView { reference, context: ctx, events: Seq::empty() };
            (SessionView { batches: without_batch(s.batches, reference).push(opened), ..s }, None)
        } else if param[0] == '-' {
            let j = first_batch(s.batches, reference);
            if j < s.batches.len() {
                let finished = s.batches[j as int];
                let rest = s.batches.remove(j as int);
                match batch {
                    Some(b) if first_batch(rest, b@) < rest.len() => {
                        let p = first_batch(rest, b@) as int;
                        let parent = BatchView { events: rest[p].events + finished.events, ..rest[p] };
                        (SessionView { batches: rest.update(p, parent), ..s }, None)
                    },
                    _ => (SessionView { batches: rest, ..s }, Some(finished.events)),
                }
            } else {
                (s, None)
            }
        } else {
            (s, None)
        }
    }
}

/// One message: its label and batch tags are taken off and resolve its
/// context; a BATCH command opens or closes a batch; a message of an open
/// batch adds its events to that batch; any other message is dispatched.
pub open spec fn handle(s: SessionView, m: MsgView, parent: Option<Context>) -> (
    SessionView,
    Option<Seq<EventView>>,
) {
    let (label, tags1) = take_tag(m.tags, "label"@);
    let (batch, tags2) = take_tag(tags1, "batch"@);
    let m2 = MsgView { tags: tags2, ..m };
    let (ctx, labels) = resolve(s, label, batch, parent);
    let s2 = SessionView { labels, ..s };
    match m2.command {
        Command::BATCH(param, _) => batch_command(s2, param@, batch, ctx),
        _ => if batch is Some {
            let (s3, evs) = dispatch(s2, m2, ctx);
            match evs {
                None => (s3, None),
                Some(e) => {
                    let j = first_batch(s3.batches, batch->0@);
                    if j < s3.batches.len() {
                        let b = s3.batches[j as int];
                        (
                            SessionView {
                                batches: s3.batches.update(
                                    j as int,
                                    BatchView { events: b.events + e, ..b },
                                ),
                                ..s3
                            },
                            None,
                        )
                    } else {
                        (s3, Some(e))
                    }
                },
            }
        } else {
            dispatch(s2, m2, ctx)
        },
    }
}

/// Whether a command ends the reply to a WHO, WHOIS or WHOWAS.
pub open spec fn ends_reroute(command: Command) -> bool {
    match command {
        Command::Numeric(code, _) => code == crate::proto::RPL_ENDOFWHO || code
            == crate::proto::RPL_ENDOFWHOIS || code == crate::proto::RPL_ENDOFWHOWAS || code
            == crate::proto::ERR_NOSUCHNICK || code == crate::proto::ERR_NOSUCHSERVER || code
            == crate::proto::ERR_NONICKNAMEGIVEN || code == crate::proto::ERR_WASNOSUCHNICK || code
            == crate::proto::ERR_NEEDMOREPARAMS,
        _ => false,
    }
}

/// Whether a command's replies come in several lines that may not all carry its label.
pub open spec fn starts_reroute(command: Command) -> bool {
    command is WHO || command is WHOIS || command is WHOWAS
}

/// One received message: handled, then the redirection of replies ends if the
/// message ends a WHO, WHOIS or WHOWAS reply.
pub open spec fn receive(s: SessionView, m: MsgView) -> (SessionView, Seq<EventView>) {
    let (s2, evs) = handle(s, m, None);
    (
        if ends_reroute(m.command) {
            SessionView { reroute: None, ..s2 }
        } else {
            s2
        },
        match evs {
            Some(e) => e,
            None => Seq::empty(),
        },
    )
}

// ---------------------------------------------------------------------------
// The executable session.
/// The protocol state of one connection: our nickname, the joined channels
/// with their members, the labels and batches awaiting replies, and where
/// unlabelled replies go for now.
pub struct Client {
    nickname: String,
    resolved_nick: Option<String>,
    chanmap: Vec<Channel>,
    channels: Vec<String>,
    users: Vec<Channel>,
    labels: Vec<PendingLabel>,
    batches: Vec<OpenBatch>,
    reroute_responses_to: Option<Buffer>,
    supports_labels: bool,
    next_label: u64,
}

/// The outcome of a command before the message is turned into an event.
enum Outcome {
    Nothing,
    Single,
    Event(Event),
}

proof fn lemma_first_tag(tags: Seq<Tag>, key: Seq<char>, k: int)
    requires
        0 <= k <= tags.len(),
        forall|j: int| 0 <= j < k ==> #[trigger] tags[j].key@ != key,
        k == tags.len() || tags[k].key@ == key,
    ensures
        first_tag(tags, key) == k,
    decreases k,
{
    if k > 0 {
        assert forall|j: int| 0 <= j < k - 1 implies #[trigger] tags.drop_first()[j].key@ != key by {
            assert(tags.drop_first()[j] == tags[j + 1]);
        }
        lemma_first_tag(tags.drop_first(), key, k - 1);
    }
}

proof fn lemma_first_label(ls: Seq<PendingLabel>, label: Seq<char>, k: int)
    requires
        0 <= k <= ls.len(),
        forall|j: int| 0 <= j < k ==> #[trigger] ls[j].label@ != label,
        k == ls.len() || ls[k].label@ == label,
    ensures
        first_label(ls, label) == k,
    decreases k,
{
    if k > 0 {
        assert forall|j: int| 0 <= j < k - 1 implies #[trigger] ls.drop_first()[j].label@ != label by {
            assert(ls.drop_first()[j] == ls[j + 1]);
        }
        lemma_first_label(ls.drop_first(), label, k - 1);
    }
}

proof fn lemma_first_batch(bs: Seq<BatchView>, reference: Seq<char>, k: int)
    requires
        0 <= k <= bs.len(),
        forall|j: int| 0 <= j < k ==> #[trigger] bs[j].reference != reference,
        k == bs.len() || bs[k].reference == reference,
    ensures
        first_batch(bs, reference) == k,
    decreases k,
{
    if k > 0 {
        assert forall|j: int| 0 <= j < k - 1 implies #[trigger] bs.drop_first()[j].reference
            != reference by {
            assert(bs.drop_first()[j] == bs[j + 1]);
        }
        lemma_first_batch(bs.drop_first(), reference, k - 1);
    }
}

/// Takes the first tag with `key` off the list and returns its value.
pub fn remove_tag(key: &str, tags: &mut Vec<Tag>) -> (r: Option<String>)
    ensures
        (r, final(tags)@) == take_tag(old(tags)@, key@),
{
    let mut i: usize = 0;
    let k = String::from_str(key);
    while i < tags.len()
        invariant
            k@ == key@,
            tags@ == old(tags)@,
            i <= tags@.len(),
            forall|j: int| 0 <= j < i ==> #[trigger] tags@[j].key@ != key@,
        decreases tags@.len() - i,
    {
        if tags[i].key == k {
            proof {
                lemma_first_tag(tags@, key@, i as int);
            }
            let tag = tags.remove(i);
            return tag.value;
        }
        i = i + 1;
    }
    proof {
        lemma_first_tag(tags@, key@, i as int);
    }
    None
}

fn find_batch(batches: &Vec<OpenBatch>, reference: &String) -> (r: usize)
    ensures
        r == first_batch(batch_views(batches@), reference@),
        r <= batches@.len(),
{
    let mut i: usize = 0;
    while i < batches.len()
        invariant
            i <= batches@.len(),
            forall|j: int| 0 <= j < i ==> #[trigger] batch_views(batches@)[j].reference != reference@,
        decreases batches@.len() - i,
    {
        if batches[i].reference == *reference {
            proof {
                lemma_first_batch(batch_views(batches@), reference@, i as int);
            }
            return i;
        }
        i = i + 1;
    }
    proof {
        lemma_first_batch(batch_views(batches@), reference@, i as int);
    }
    i
}

fn one(e: Event) -> (r: Vec<Event>)
    ensures
        event_views(r@) == seq![e.view()],
{
    let mut v: Vec<Event> = Vec::new();
    v.push(e);
    assert(event_views(v@) =~= seq![e.view()]);
    v
}

fn clone_opt(o: &Option<String>) -> (r: Option<String>)
    ensures
        r == *o,
{
    match o {
        Some(s) => Some(s.clone()),
        None => None,
    }
}

/// Whether a CAP ACK argument acknowledges labeled responses.
fn acks_labels_exec(caps: &String) -> (r: bool)
    ensures
        r == acks_labels(caps@),
{
    let pieces = split(caps.as_str(), ' ');
    let wanted = String::from_str("labeled-response");
    let mut i: usize = 0;
    while i < pieces.len()
        invariant
            wanted@ == "labeled-response"@,
            pieces@.len() == split_on(caps@, ' ').len(),
            forall|j: int| 0 <= j < pieces@.len() ==> #[trigger] pieces@[j]@ == split_on(caps@, ' ')[j],
            i <= pieces@.len(),
            forall|j: int| 0 <= j < i ==> split_on(caps@, ' ')[j] != "labeled-response"@,
        decreases pieces@.len() - i,
    {
        if pieces[i] == wanted {
            assert(split_on(caps@, ' ')[i as int] == "labeled-response"@);
            return true;
        }
        i = i + 1;
    }
    false
}

impl Client {
    pub closed spec fn view(&self) -> SessionView {
        SessionView {
            nick: match self.resolved_nick {
                Some(n) => n@,
                None => self.nickname@,
            },
            chans: chan_views(self.chanmap@),
            labels: self.labels@,
            batches: batch_views(self.batches@),
            reroute: self.reroute_responses_to,
            supports_labels: self.supports_labels,
        }
    }

    /// A session for a connection made under the configured `nickname`.
    pub fn new(nickname: String) -> (r: Client)
        ensures
            r@ == (SessionView {
                nick: nickname@,
                chans: Seq::empty(),
                labels: Seq::empty(),
                batches: Seq::empty(),
                reroute: None,
                supports_labels: false,
            }),
            r.wf(),
    {
        let r = Client {
            nickname,
            resolved_nick: None,
            chanmap: Vec::new(),
            channels: Vec::new(),
            users: Vec::new(),
            labels: Vec::new(),
            batches: Vec::new(),
            reroute_responses_to: None,
            supports_labels: false,
            next_label: 0,
        };
        assert(chan_views(r.chanmap@) =~= Seq::empty());
        assert(batch_views(r.batches@) =~= Seq::empty());
        r
    }

    /// Ends the session; returns the QUIT message to send before the connection closes.
    pub fn quit(self) -> (r: Message)
        ensures
            r.command == Command::QUIT(None),
            r.tags@.len() == 0,
            r.prefix is None,
    {
        Message::new(Command::QUIT(None))
    }

    /// Our current nickname: the one the server confirmed, else the configured one.
    pub fn nickname(&self) -> (r: &str)
        ensures
            r@ == self@.nick,
    {
        match &self.resolved_nick {
            Some(n) => n.as_str(),
            None => self.nickname.as_str(),
        }
    }

    fn nick_string(&self) -> (r: String)
        ensures
            r@ == self@.nick,
    {
        String::from_str(self.nickname())
    }

    fn take_chanmap(&mut self) -> (r: Vec<Channel>)
        ensures
            r == old(self).chanmap,
            final(self).chanmap@.len() == 0,
            final(self).nickname == old(self).nickname,
            final(self).resolved_nick == old(self).resolved_nick,
            final(self).labels == old(self).labels,
            final(self).batches == old(self).batches,
            final(self).reroute_responses_to == old(self).reroute_responses_to,
            final(self).supports_labels == old(self).supports_labels,
            final(self).channels == old(self).channels,
            final(self).users == old(self).users,
            final(self).next_label == old(self).next_label,
    {
        let mut chans: Vec<Channel> = Vec::new();
        std::mem::swap(&mut chans, &mut self.chanmap);
        chans
    }

    fn change_members(&mut self, op: &ChanOp)
        ensures
            final(self)@ == (SessionView {
                chans: apply_op(old(self)@.chans, op.view()),
                ..old(self)@
            }),
            final(self).label_seed() == old(self).label_seed(),
    {
        let chans = self.take_chanmap();
        self.chanmap = apply_to_all(chans, op);
    }

    /// The command's change to the session, before redirection is considered.
    fn apply_command(&mut self, message: &Message, ctx: &Option<Context>) -> (r: Outcome)
        requires
            !(ctx matches Some(c) && c is Whois),
            !(old(self)@.reroute is Some && (message.command is Numeric
                || message.command is Unknown)),
        ensures
            final(self)@ == dispatch(old(self)@, message.view(), *ctx).0,
            final(self).label_seed() == old(self).label_seed(),
            dispatch(old(self)@, message.view(), *ctx).1 is None ==> r is Nothing,
            dispatch(old(self)@, message.view(), *ctx).1 matches Some(ev) ==> ((r is Single && ev
                == seq![EventView::Single(message.view(), final(self)@.nick)]) || (
            r matches Outcome::Event(x) && ev == seq![x.view()])),
    {
        let channel_modes = match &message.command {
            Command::MODE(target, Some(_), _) => is_channel(target.as_str()),
            _ => false,
        };
        let names = match &message.command {
            Command::Numeric(code, args) => *code == RPL_NAMREPLY && args.len() > 3,
            _ => false,
        };
        match &message.command {
            Command::CAP(_, sub, a, b) => {
                if *sub == String::from_str("ACK") {
                    let caps = if b.is_none() {
                        a
                    } else {
                        b
                    };
                    match caps {
                        None => Outcome::Nothing,
                        Some(c) => {
                            if acks_labels_exec(c) {
                                self.supports_labels = true;
                            }
                            Outcome::Single
                        },
                    }
                } else {
                    Outcome::Single
                }
            },
            Command::PRIVMSG(..) | Command::NOTICE(..) => {
                match message.user() {
                    Some(u) => {
                        if same_nick(u.nickname.as_str(), self.nickname()) && ctx.is_some() {
                            Outcome::Nothing
                        } else {
                            Outcome::Single
                        }
                    },
                    None => Outcome::Single,
                }
            },
            Command::NICK(new) => {
                match message.user() {
                    None => Outcome::Nothing,
                    Some(u) => {
                        let ourself = same_nick(u.nickname.as_str(), self.nickname());
                        let channels = channels_of(&self.chanmap, u.nickname.as_str());
                        self.change_members(&ChanOp::Rename(u.nickname.clone(), new.clone()));
                        if ourself {
                            self.resolved_nick = Some(new.clone());
                        }
                        Outcome::Event(
                            Event::Brodcast(
                                Brodcast::Nickname {
                                    old_user: u,
                                    new_nick: new.clone(),
                                    ourself,
                                    channels,
                                },
                            ),
                        )
                    },
                }
            },
            Command::Numeric(code, args) => {
                if *code == RPL_WELCOME {
                    if args.len() > 0 {
                        self.resolved_nick = Some(args[0].clone());
                    }
                } else if names {
                    let entries = split(args[3].as_str(), ' ');
                    assert(strs(entries@) =~= split_on(args@[3]@, ' '));
                    self.change_members(&ChanOp::Names(args[2].clone(), entries));
                }
                Outcome::Single
            },
            Command::QUIT(comment) => {
                match message.user() {
                    None => Outcome::Nothing,
                    Some(u) => {
                        let channels = channels_of(&self.chanmap, u.nickname.as_str());
                        self.change_members(&ChanOp::Quit(u.nickname.clone()));
                        Outcome::Event(
                            Event::Brodcast(
                                Brodcast::Quit { user: u, comment: clone_opt(comment), channels },
                            ),
                        )
                    },
                }
            },
            Command::PART(ch, _) => {
                match message.user() {
                    None => Outcome::Nothing,
                    Some(u) => {
                        if same_nick(u.nickname.as_str(), self.nickname()) {
                            let chans = self.take_chanmap();
                            self.chanmap = remove_channel(chans, ch);
                        } else {
                            self.change_members(&ChanOp::Part(ch.clone(), u.nickname.clone()));
                        }
                        Outcome::Single
                    },
                }
            },
            Command::JOIN(ch, _) => {
                match message.user() {
                    None => Outcome::Nothing,
                    Some(u) => {
                        if same_nick(u.nickname.as_str(), self.nickname()) {
                            let chans = self.take_chanmap();
                            let mut chans = remove_channel(chans, ch);
                            push_channel(&mut chans, Channel::empty(ch.clone()));
                            self.chanmap = chans;
                        } else {
                            self.change_members(&ChanOp::Join(ch.clone(), u));
                        }
                        Outcome::Single
                    },
                }
            },
            Command::MODE(target, modes, args) => {
                if channel_modes {
                    match modes {
                        Some(modes) => {
                            let parsed = parse(modes.as_str(), args);
                            self.change_members(&ChanOp::Modes(target.clone(), parsed));
                        },
                        None => {},
                    }
                }
                Outcome::Single
            },
            _ => Outcome::Single,
        }
    }
}

/// Whether a command ends the reply to a WHO, WHOIS or WHOWAS.
pub fn stop_reroute(command: &Command) -> (r: bool)
    ensures
        r == ends_reroute(*command),
{
    match command {
        Command::Numeric(code, _) => *code == crate::proto::RPL_ENDOFWHO || *code
            == crate::proto::RPL_ENDOFWHOIS || *code == crate::proto::RPL_ENDOFWHOWAS || *code
            == crate::proto::ERR_NOSUCHNICK || *code == crate::proto::ERR_NOSUCHSERVER || *code
            == crate::proto::ERR_NONICKNAMEGIVEN || *code == crate::proto::ERR_WASNOSUCHNICK
            || *code == crate::proto::ERR_NEEDMOREPARAMS,
        _ => false,
    }
}

/// Whether a command's replies come in several lines that may not all carry its label.
pub fn start_reroute(command: &Command) -> (r: bool)
    ensures
        r == starts_reroute(*command),
{
    match command {
        Command::WHO(..) | Command::WHOIS(..) | Command::WHOWAS(..) => true,
        _ => false,
    }
}

fn clone_context(c: &Option<Context>) -> (r: Option<Context>)
    ensures
        r == *c,
{
    match c {
        Some(c) => Some(c.clone()),
        None => None,
    }
}

fn push_events(target: &mut Vec<Event>, events: Vec<Event>)
    ensures
        event_views(final(target)@) == event_views(old(target)@) + event_views(events@),
{
    let mut events = events;
    let ghost added = events@;
    target.append(&mut events);
    assert(event_views(target@) =~= event_views(old(target)@) + event_views(added));
}

/// The text after the first character.
fn rest_of(chars: &Vec<char>) -> (r: String)
    requires
        chars@.len() > 0,
    ensures
        r@ == chars@.drop_first(),
{
    let mut tail: Vec<char> = Vec::new();
    let mut i: usize = 1;
    while i < chars.len()
        invariant
            1 <= i <= chars@.len(),
            tail@ == chars@.subrange(1, i as int),
        decreases chars@.len() - i,
    {
        tail.push(chars[i]);
        i = i + 1;
        assert(tail@ =~= chars@.subrange(1, i as int));
    }
    assert(tail@ =~= chars@.drop_first());
    from_chars(tail.as_slice())
}

/// Every pending label is the decimal form of a number below `seed`, and no
/// two pending labels are the same.
/// Whether a label is the decimal form of a number below `seed`.
pub open spec fn from_counter(label: Seq<char>, seed: nat) -> bool {
    exists|c: nat| c < seed && #[trigger] decimal(c) == label
}

pub open spec fn labels_wf(ls: Seq<PendingLabel>, seed: nat) -> bool {
    &&& forall|i: int| 0 <= i < ls.len() ==> from_counter(#[trigger] ls[i].label@, seed)
    &&& forall|i: int, j: int|
        0 <= i < j < ls.len() ==> #[trigger] ls[i].label@ != #[trigger] ls[j].label@
}

proof fn lemma_labels_wf_remove(ls: Seq<PendingLabel>, seed: nat, i: int)
    requires
        labels_wf(ls, seed),
        0 <= i < ls.len(),
    ensures
        labels_wf(ls.remove(i), seed),
{
    let r = ls.remove(i);
    assert forall|a: int| 0 <= a < r.len() implies from_counter(#[trigger] r[a].label@, seed) by {
        if a < i {
            assert(r[a] == ls[a]);
        } else {
            assert(r[a] == ls[a + 1]);
        }
    }
    assert forall|a: int, b: int| 0 <= a < b < r.len() implies #[trigger] r[a].label@
        != #[trigger] r[b].label@ by {
        let x = if a < i {
            a
        } else {
            a + 1
        };
        let y = if b < i {
            b
        } else {
            b + 1
        };
        assert(r[a] == ls[x] && r[b] == ls[y]);
    }
}

/// The labels a session gives out are never pending twice.
pub proof fn lemma_labels_distinct(ls: Seq<PendingLabel>, seed: nat, l: Seq<char>)
    requires
        labels_wf(ls, seed),
        first_label(ls, l) < ls.len(),
    ensures
        forall|j: int|
            0 <= j < ls.len() && j != first_label(ls, l) ==> #[trigger] ls[j].label@ != l,
{
    let i = first_label(ls, l) as int;
    lemma_first_label_hit(ls, l);
    assert forall|j: int| 0 <= j < ls.len() && j != i implies #[trigger] ls[j].label@ != l by {
        if j < i {
            assert(ls[j].label@ != ls[i].label@);
        } else {
            assert(ls[i].label@ != ls[j].label@);
        }
    }
}

proof fn lemma_first_label_hit(ls: Seq<PendingLabel>, l: Seq<char>)
    ensures
        first_label(ls, l) < ls.len() ==> ls[first_label(ls, l) as int].label@ == l,
    decreases ls.len(),
{
    if ls.len() > 0 && ls[0].label@ != l {
        lemma_first_label_hit(ls.drop_first(), l);
        if first_label(ls, l) < ls.len() {
            assert(ls[first_label(ls, l) as int] == ls.drop_first()[first_label(ls.drop_first(), l) as int]);
        }
    }
}

/// The pending labels after a message: those before it, less the one its label used up.
proof fn lemma_receive_labels(s: SessionView, m: MsgView)
    ensures
        receive(s, m).0.labels == s.labels || exists|i: int|
            0 <= i < s.labels.len() && receive(s, m).0.labels == s.labels.remove(i),
{
    let (label, tags1) = take_tag(m.tags, "label"@);
    let (batch, tags2) = take_tag(tags1, "batch"@);
    let labels = resolve(s, label, batch, None).1;
    assert(receive(s, m).0.labels == labels);
    match label {
        Some(l) => {
            let i = first_label(s.labels, l@);
            if i < s.labels.len() {
                assert(labels == s.labels.remove(i as int));
            }
        },
        None => {},
    }
}

impl Client {
    /// The number that the next label is made of.
    pub closed spec fn label_seed(&self) -> nat {
        self.next_label as nat
    }

    /// The pending labels are distinct, each made from a number already used.
    pub open spec fn wf(&self) -> bool {
        labels_wf(self@.labels, self.label_seed())
    }

    fn find_label(&self, label: &String) -> (r: usize)
        ensures
            r == first_label(self@.labels, label@),
            r <= self@.labels.len(),
    {
        let mut i: usize = 0;
        while i < self.labels.len()
            invariant
                i <= self.labels@.len(),
                forall|j: int| 0 <= j < i ==> #[trigger] self.labels@[j].label@ != label@,
            decreases self.labels@.len() - i,
        {
            if self.labels[i].label == *label {
                proof {
                    lemma_first_label(self.labels@, label@, i as int);
                }
                return i;
            }
            i = i + 1;
        }
        proof {
            lemma_first_label(self.labels@, label@, i as int);
        }
        i
    }

    /// The message's context; a label that resolves it is used up.
    fn resolve_context(
        &mut self,
        label: Option<String>,
        batch: &Option<String>,
        parent: Option<Context>,
    ) -> (r: Option<Context>)
        ensures
            (r, final(self)@.labels) == resolve(old(self)@, label, *batch, parent),
            final(self)@ == (SessionView { labels: final(self)@.labels, ..old(self)@ }),
            final(self).label_seed() == old(self).label_seed(),
    {
        if parent.is_some() {
            return parent;
        }
        match &label {
            Some(l) => {
                let i = self.find_label(l);
                if i < self.labels.len() {
                    let pending = self.labels.remove(i);
                    return Some(pending.context);
                }
            },
            None => {},
        }
        match batch {
            Some(b) => {
                let j = find_batch(&self.batches, b);
                if j < self.batches.len() {
                    clone_context(&self.batches[j].batch.context)
                } else {
                    None
                }
            },
            None => None,
        }
    }

    /// A message after label, batch and redirection handling.
    fn dispatch(&mut self, message: Message, ctx: Option<Context>) -> (r: Option<Vec<Event>>)
        ensures
            final(self)@ == dispatch(old(self)@, message.view(), ctx).0,
            final(self).label_seed() == old(self).label_seed(),
            dispatch(old(self)@, message.view(), ctx).1 is None ==> r is None,
            dispatch(old(self)@, message.view(), ctx).1 matches Some(ev) ==> r matches Some(v)
                && event_views(v@) == ev,
    {
        let whois = match &ctx {
            Some(c) => c.is_whois(),
            None => false,
        };
        if whois {
            match ctx {
                Some(c) => {
                    let nick = self.nick_string();
                    return Some(one(Event::WithTarget(message, nick, c.buffer())));
                },
                None => {},
            }
        }
        let rerouted = match &message.command {
            Command::Numeric(..) | Command::Unknown(..) => true,
            _ => false,
        };
        if rerouted {
            match &self.reroute_responses_to {
                Some(b) => {
                    let target = b.clone();
                    let nick = self.nick_string();
                    return Some(one(Event::WithTarget(message, nick, target)));
                },
                None => {},
            }
        }
        let outcome = self.apply_command(&message, &ctx);
        match outcome {
            Outcome::Nothing => None,
            Outcome::Single => {
                let nick = self.nick_string();
                Some(one(Event::Single(message, nick)))
            },
            Outcome::Event(e) => Some(one(e)),
        }
    }

    /// Adds events to the open batch at index `j`.
    fn extend_batch(&mut self, j: usize, events: Vec<Event>)
        requires
            j < old(self)@.batches.len(),
        ensures
            final(self)@ == (SessionView {
                batches: old(self)@.batches.update(
                    j as int,
                    BatchView {
                        events: old(self)@.batches[j as int].events + event_views(events@),
                        ..old(self)@.batches[j as int]
                    },
                ),
                ..old(self)@
            }),
            final(self).label_seed() == old(self).label_seed(),
    {
        let ghost before = self.batches@;
        let mut open = self.batches.remove(j);
        push_events(&mut open.batch.events, events);
        self.batches.insert(j, open);
        assert(batch_views(self.batches@) =~= batch_views(before).update(
            j as int,
            BatchView {
                events: batch_views(before)[j as int].events + event_views(events@),
                ..batch_views(before)[j as int]
            },
        ));
    }

    /// A BATCH command with parameter `param`.
    fn batch_command(&mut self, param: &String, batch: &Option<String>, ctx: Option<Context>) -> (r:
        Option<Vec<Event>>)
        ensures
            final(self)@ == batch_command(old(self)@, param@, *batch, ctx).0,
            final(self).label_seed() == old(self).label_seed(),
            batch_command(old(self)@, param@, *batch, ctx).1 is None ==> r is None,
            batch_command(old(self)@, param@, *batch, ctx).1 matches Some(ev) ==> r matches Some(v)
                && event_views(v@) == ev,
    {
        let chars = to_chars(param.as_str());
        if chars.len() == 0 {
            return None;
        }
        let reference = rest_of(&chars);
        if chars[0] == '+' {
            let j = find_batch(&self.batches, &reference);
            let ghost before = self.batches@;
            if j < self.batches.len() {
                self.batches.remove(j);
                assert(batch_views(self.batches@) =~= batch_views(before).remove(j as int));
            }
            let ghost middle = self.batches@;
            let opened = OpenBatch { reference, batch: Batch::new(ctx) };
            self.batches.push(opened);
            assert(event_views(opened.batch.events@) =~= Seq::empty());
            assert(batch_views(self.batches@) =~= batch_views(middle).push(opened.view()));
            None
        } else if chars[0] == '-' {
            let j = find_batch(&self.batches, &reference);
            if j < self.batches.len() {
                let ghost before = self.batches@;
                let finished = self.batches.remove(j);
                assert(batch_views(self.batches@) =~= batch_views(before).remove(j as int));
                match batch {
                    Some(b) => {
                        let p = find_batch(&self.batches, b);
                        if p < self.batches.len() {
                            self.extend_batch(p, finished.batch.events);
                            return None;
                        }
                    },
                    None => {},
                }
                Some(finished.batch.events)
            } else {
                None
            }
        } else {
            None
        }
    }

    fn handle(&mut self, message: Message, parent: Option<Context>) -> (r: Option<Vec<Event>>)
        ensures
            final(self)@ == handle(old(self)@, message.view(), parent).0,
            final(self).label_seed() == old(self).label_seed(),
            handle(old(self)@, message.view(), parent).1 is None ==> r is None,
            handle(old(self)@, message.view(), parent).1 matches Some(ev) ==> r matches Some(v)
                && event_views(v@) == ev,
    {
        let mut message = message;
        let label = remove_tag("label", &mut message.tags);
        let batch = remove_tag("batch", &mut message.tags);
        proof {
            reveal_strlit("label");
            reveal_strlit("batch");
        }
        let ctx = self.resolve_context(label, &batch, parent);
        let is_batch_command = match &message.command {
            Command::BATCH(..) => true,
            _ => false,
        };
        if is_batch_command {
            match &message.command {
                Command::BATCH(param, _) => {
                    return self.batch_command(param, &batch, ctx);
                },
                _ => {
                    return None;
                },
            }
        }
        match batch {
            Some(b) => {
                let events = self.dispatch(message, ctx);
                match events {
                    None => None,
                    Some(e) => {
                        let j = find_batch(&self.batches, &b);
                        if j < self.batches.len() {
                            self.extend_batch(j, e);
                            None
                        } else {
                            Some(e)
                        }
                    },
                }
            },
            None => self.dispatch(message, ctx),
        }
    }

    /// Handles one received message and returns the events derived from it.
    pub fn receive(&mut self, message: Message) -> (r: Vec<Event>)
        requires
            old(self).wf(),
        ensures
            final(self).wf(),
            final(self)@ == receive(old(self)@, message.view()).0,
            event_views(r@) == receive(old(self)@, message.view()).1,
            final(self).label_seed() == old(self).label_seed(),
    {
        let stop = stop_reroute(&message.command);
        proof {
            lemma_receive_labels(self@, message.view());
            if exists|i: int|
                0 <= i < self@.labels.len() && receive(self@, message.view()).0.labels
                    == self@.labels.remove(i) {
                let i = choose|i: int|
                    0 <= i < self@.labels.len() && receive(self@, message.view()).0.labels
                        == self@.labels.remove(i);
                lemma_labels_wf_remove(self@.labels, self.label_seed(), i);
            }
        }
        let events = self.handle(message, None);
        if stop {
            self.reroute_responses_to = None;
        }
        match events {
            Some(e) => e,
            None => {
                let e: Vec<Event> = Vec::new();
                assert(event_views(e@) =~= Seq::empty());
                e
            },
        }
    }
}

impl Client {
    /// Prepares a message for sending from `buffer` and returns it as it goes
    /// on the wire. Where the server supports labels, the message is labelled
    /// with a fresh label (the decimal form of a counter, until the counter
    /// runs out), and the label remembers the context of the send. A WHO,
    /// WHOIS or WHOWAS makes `buffer` the target of unlabelled replies; any
    /// other command ends that.
    pub fn send(&mut self, buffer: &Buffer, message: Message) -> (r: Message)
        requires
            old(self).wf(),
        ensures
            final(self).wf(),
            r.command == message.command,
            r.prefix == message.prefix,
            labelling(old(self)@, old(self).label_seed()) ==> r.tags@.len() == 1 && r.tags@[0].key@
                == "label"@ && (r.tags@[0].value matches Some(l) && l@ == decimal(
                old(self).label_seed(),
            ) && final(self)@.labels == old(self)@.labels.push(
                PendingLabel { label: l, context: Context::for_command(message.command, *buffer) },
            )) && final(self).label_seed() == old(self).label_seed() + 1,
            !labelling(old(self)@, old(self).label_seed()) ==> r.tags == message.tags
                && final(self)@.labels == old(self)@.labels && final(self).label_seed() == old(
                self,
            ).label_seed(),
            final(self)@.reroute == if starts_reroute(message.command) {
                Some(*buffer)
            } else {
                None
            },
            final(self)@ == (SessionView {
                labels: final(self)@.labels,
                reroute: final(self)@.reroute,
                ..old(self)@
            }),
    {
        let mut message = message;
        if self.supports_labels && self.next_label < u64::MAX {
            let label = to_decimal(self.next_label);
            let ghost seed = self.next_label as nat;
            let ghost before = self.labels@;
            self.next_label = self.next_label + 1;
            let context = Context::new(&message, buffer.clone());
            self.labels.push(PendingLabel { label: label.clone(), context });
            proof {
                let ls = self.labels@;
                assert forall|i: int| 0 <= i < ls.len() implies from_counter(
                    #[trigger] ls[i].label@,
                    seed + 1,
                ) by {
                    if i < before.len() {
                        assert(ls[i] == before[i]);
                        assert(from_counter(before[i].label@, seed));
                        let c = choose|c: nat| c < seed && #[trigger] decimal(c) == before[i].label@;
                        assert(decimal(c) == ls[i].label@);
                    } else {
                        assert(decimal(seed) == ls[i].label@);
                    }
                }
                assert forall|i: int, j: int| 0 <= i < j < ls.len() implies #[trigger] ls[i].label@
                    != #[trigger] ls[j].label@ by {
                    if j < before.len() {
                        assert(ls[i] == before[i] && ls[j] == before[j]);
                    } else {
                        assert(ls[i] == before[i]);
                        assert(from_counter(before[i].label@, seed));
                        let c = choose|c: nat| c < seed && #[trigger] decimal(c) == before[i].label@;
                        if ls[i].label@ == ls[j].label@ {
                            lemma_decimal_injective(c, seed);
                        }
                    }
                }
            }
            let mut tags: Vec<Tag> = Vec::new();
            tags.push(Tag { key: String::from_str("label"), value: Some(label) });
            message.tags = tags;
        }
        if start_reroute(&message.command) {
            self.reroute_responses_to = Some(buffer.clone());
        } else {
            self.reroute_responses_to = None;
        }
        message
    }

    /// Refreshes the channel list and the member lists that readers see from
    /// the membership as it stands: the channel names in order, and each
    /// channel's members with higher access levels first, then by nickname.
    pub fn sync(&mut self)
        ensures
            final(self)@ == old(self)@,
            final(self).label_seed() == old(self).label_seed(),
            is_snapshot(old(self)@.chans, final(self).channels_view(), final(self).users_view()),
    {
        let mut names: Vec<String> = Vec::new();
        let mut lists: Vec<Channel> = Vec::new();
        let mut i: usize = 0;
        let ghost chans = self@.chans;
        while i < self.chanmap.len()
            invariant
                chans == chan_views(self.chanmap@),
                i <= self.chanmap@.len(),
                strs(names@) == chan_names(chans.subrange(0, i as int)),
                lists@.len() == i,
                forall|j: int|
                    0 <= j < i ==> #[trigger] lists@[j].name@ == chans[j].name
                        && user_views(lists@[j].users@).to_multiset() == chans[j].users.to_multiset()
                        && sorted_keys(user_keys(user_views(lists@[j].users@))),
            decreases self.chanmap@.len() - i,
        {
            let c = &self.chanmap[i];
            let ghost prev_names = names@;
            names.push(c.name.clone());
            let sorted = sort_users(clone_users(&c.users));
            lists.push(Channel { name: c.name.clone(), users: sorted });
            i = i + 1;
            assert(chans[i - 1] == self.chanmap@[i - 1].view());
            assert(strs(names@) =~= strs(prev_names).push(self.chanmap@[i - 1].name@));
            assert(chan_names(chans.subrange(0, i as int)) =~= chan_names(
                chans.subrange(0, i - 1),
            ).push(chans[i - 1].name));
        }
        assert(chans.subrange(0, self.chanmap@.len() as int) =~= chans);
        self.channels = sort_names(names);
        self.users = lists;
    }

    pub closed spec fn channels_view(&self) -> Seq<String> {
        self.channels@
    }

    pub closed spec fn users_view(&self) -> Seq<Channel> {
        self.users@
    }

    /// The channel list as of the last `sync`.
    pub fn channels(&self) -> (r: &Vec<String>)
        ensures
            r@ == self.channels_view(),
    {
        &self.channels
    }

    /// The members of `channel` as of the last `sync`; none for a channel not joined then.
    pub fn users(&self, channel: &str) -> (r: &[User])
        ensures
            r@ == users_in(self.users_view(), channel@),
    {
        let mut i: usize = 0;
        while i < self.users.len()
            invariant
                i <= self.users@.len(),
                forall|j: int| 0 <= j < i ==> #[trigger] self.users@[j].name@ != channel@,
            decreases self.users@.len() - i,
        {
            if same_text(self.users[i].name.as_str(), channel) {
                proof {
                    lemma_users_in(self.users@, channel@, i as int);
                }
                return self.users[i].users.as_slice();
            }
            i = i + 1;
        }
        proof {
            lemma_users_in(self.users@, channel@, i as int);
        }
        &[]
    }

    /// The channels, as of the last `sync`, that have a member of nickname `nick`.
    pub fn user_channels(&self, nick: &str) -> (r: Vec<String>)
        ensures
            strs(r@) == member_channels(chan_views(self.users_view()), nick_key(nick@)),
    {
        channels_of(&self.users, nick)
    }
}

/// The members of the first channel named `channel`; none if there is no such channel.
pub open spec fn users_in(lists: Seq<Channel>, channel: Seq<char>) -> Seq<User>
    decreases lists.len(),
{
    if lists.len() == 0 {
        Seq::empty()
    } else if lists[0].name@ == channel {
        lists[0].users@
    } else {
        users_in(lists.drop_first(), channel)
    }
}

proof fn lemma_users_in(lists: Seq<Channel>, channel: Seq<char>, k: int)
    requires
        0 <= k <= lists.len(),
        forall|j: int| 0 <= j < k ==> #[trigger] lists[j].name@ != channel,
        k == lists.len() || lists[k].name@ == channel,
    ensures
        users_in(lists, channel) == if k < lists.len() {
            lists[k].users@
        } else {
            Seq::<User>::empty()
        },
    decreases k,
{
    if k > 0 {
        assert forall|j: int| 0 <= j < k - 1 implies #[trigger] lists.drop_first()[j].name@ != channel by {
            assert(lists.drop_first()[j] == lists[j + 1]);
        }
        lemma_users_in(lists.drop_first(), channel, k - 1);
    }
}

/// Whether a send from a session labels its message: the server supports
/// labels and the counter has not run out.
pub open spec fn labelling(s: SessionView, seed: nat) -> bool {
    s.supports_labels && seed < u64::MAX
}

/// The names of the channels, in order.
pub open spec fn chan_names(cs: Seq<ChannelView>) -> Seq<Seq<char>> {
    cs.map_values(|c: ChannelView| c.name)
}

/// What readers see after a sync of the channels `chans`: the channel names in
/// order, and for each channel, in place, its members in order.
pub open spec fn is_snapshot(chans: Seq<ChannelView>, channels: Seq<String>, users: Seq<Channel>) -> bool {
    &&& strs(channels).to_multiset() == chan_names(chans).to_multiset()
    &&& sorted_keys(name_keys(strs(channels)))
    &&& users.len() == chans.len()
    &&& forall|j: int|
        0 <= j < chans.len() ==> #[trigger] users[j].name@ == chans[j].name && user_views(
            users[j].users@,
        ).to_multiset() == chans[j].users.to_multiset() && sorted_keys(
            user_keys(user_views(users[j].users@)),
        )
}

fn clone_users(users: &Vec<User>) -> (r: Vec<User>)
    ensures
        r@ == users@,
{
    let mut out: Vec<User> = Vec::new();
    let mut i: usize = 0;
    while i < users.len()
        invariant
            i <= users@.len(),
            out@ == users@.subrange(0, i as int),
        decreases users@.len() - i,
    {
        out.push(crate::membership::clone_user(&users[i]));
        i = i + 1;
        assert(out@ =~= users@.subrange(0, i as int));
    }
    assert(out@ =~= users@);
    out
}

/// Whether two texts are equal.
fn same_text(a: &str, b: &str) -> (r: bool)
    ensures
        r == (a@ == b@),
{
    let x = to_chars(a);
    let y = to_chars(b);
    if x.len() != y.len() {
        return false;
    }
    let mut i: usize = 0;
    while i < x.len()
        invariant
            x@ == a@,
            y@ == b@,
            x@.len() == y@.len(),
            i <= x@.len(),
            forall|j: int| 0 <= j < i ==> x@[j] == y@[j],
        decreases x@.len() - i,
    {
        if x[i] != y[i] {
            return false;
        }
        i = i + 1;
    }
    assert(x@ =~= y@);
    true
}

// ---------------------------------------------------------------------------
// Laws of the session.
/// What a membership message (JOIN, PART, QUIT or NICK) does to our nickname
/// and to the members of the joined channels, with nothing else of the
/// session involved.
pub open spec fn membership_step(nick: Seq<char>, chans: Seq<ChannelView>, m: MsgView) -> (
    Seq<char>,
    Seq<ChannelView>,
) {
    match prefix_user(m.prefix) {
        None => (nick, chans),
        Some(u) => {
            let k = nick_key(u.nickname@);
            let ours = k == nick_key(nick);
            match m.command {
                Command::JOIN(ch, _) => if ours {
                    (
                        nick,
                        without_channel(chans, ch@).push(
                            ChannelView { name: ch@, users: Seq::empty() },
                        ),
                    )
                } else {
                    (nick, apply_op(chans, MemberChange::Join(ch@, u.view())))
                },
                Command::PART(ch, _) => if ours {
                    (nick, without_channel(chans, ch@))
                } else {
                    (nick, apply_op(chans, MemberChange::Part(ch@, k)))
                },
                Command::QUIT(_) => (nick, apply_op(chans, MemberChange::Quit(k))),
                Command::NICK(new) => (
                    if ours {
                        new@
                    } else {
                        nick
                    },
                    apply_op(chans, MemberChange::Rename(k, new@)),
                ),
                _ => (nick, chans),
            }
        },
    }
}

/// The membership model after a sequence of messages.
pub open spec fn replay(nick: Seq<char>, chans: Seq<ChannelView>, ms: Seq<MsgView>) -> (
    Seq<char>,
    Seq<ChannelView>,
)
    decreases ms.len(),
{
    if ms.len() == 0 {
        (nick, chans)
    } else {
        let (n, c) = replay(nick, chans, ms.drop_last());
        membership_step(n, c, ms.last())
    }
}

/// The session after receiving a sequence of messages in order.
pub open spec fn receive_all(s: SessionView, ms: Seq<MsgView>) -> SessionView
    decreases ms.len(),
{
    if ms.len() == 0 {
        s
    } else {
        receive(receive_all(s, ms.drop_last()), ms.last()).0
    }
}

/// An untagged JOIN, PART, QUIT or NICK.
pub open spec fn is_membership_message(m: MsgView) -> bool {
    m.tags.len() == 0 && (m.command is JOIN || m.command is PART || m.command is QUIT
        || m.command is NICK)
}

proof fn lemma_membership_step(s: SessionView, m: MsgView)
    requires
        is_membership_message(m),
    ensures
        (receive(s, m).0.nick, receive(s, m).0.chans) == membership_step(s.nick, s.chans, m),
{
    assert(first_tag(m.tags, "label"@) == 0);
    assert(first_tag(m.tags, "batch"@) == 0);
}

/// Membership consistency: over any sequence of JOIN, PART, QUIT and NICK
/// messages, the session's nickname and channel members are those of the
/// membership model replayed over the same sequence.
pub proof fn lemma_membership_consistency(s: SessionView, ms: Seq<MsgView>)
    requires
        forall|i: int| 0 <= i < ms.len() ==> is_membership_message(#[trigger] ms[i]),
    ensures
        (receive_all(s, ms).nick, receive_all(s, ms).chans) == replay(s.nick, s.chans, ms),
    decreases ms.len(),
{
    if ms.len() > 0 {
        let init = ms.drop_last();
        assert forall|i: int| 0 <= i < init.len() implies is_membership_message(
            #[trigger] init[i],
        ) by {
            assert(init[i] == ms[i]);
        }
        lemma_membership_consistency(s, init);
        assert(is_membership_message(ms[ms.len() - 1]));
        lemma_membership_step(receive_all(s, init), ms.last());
    }
}

/// Every channel keeps its place and name; in each channel where the new
/// nickname is not taken by someone else, the entries of nickname key `k` take
/// the new nickname with their access levels and every other entry stays.
pub open spec fn renamed_everywhere(
    before: Seq<ChannelView>,
    after: Seq<ChannelView>,
    k: Seq<u32>,
    new: Seq<char>,
) -> bool {
    &&& after.len() == before.len()
    &&& forall|i: int| 0 <= i < before.len() ==> #[trigger] after[i].name == before[i].name
    &&& forall|i: int|
        0 <= i < before.len() && (nick_key(new) == k || !has_user(before[i].users, nick_key(new)))
            ==> #[trigger] after[i].users.len() == before[i].users.len()
    &&& forall|i: int, j: int|
        0 <= i < before.len() && 0 <= j < before[i].users.len() && (nick_key(new) == k
            || !has_user(before[i].users, nick_key(new))) ==> #[trigger] after[i].users[j] == if nick_key(
            before[i].users[j].nick,
        ) == k {
            UserView { nick: new, access: before[i].users[j].access }
        } else {
            before[i].users[j]
        }
}

/// Nick propagation: when a user changes nickname, the new nickname replaces
/// the old one in every channel that held the user, with the access levels
/// kept there, and the one event lists exactly the channels that held the user.
pub proof fn lemma_nick_propagation(s: SessionView, m: MsgView, u: User, new: String)
    requires
        m.tags.len() == 0,
        m.command == Command::NICK(new),
        prefix_user(m.prefix) == Some(u),
    ensures
        renamed_everywhere(s.chans, receive(s, m).0.chans, nick_key(u.nickname@), new@),
        receive(s, m).1 == seq![
            EventView::Nickname(
                u,
                new,
                nick_key(u.nickname@) == nick_key(s.nick),
                member_channels(s.chans, nick_key(u.nickname@)),
            ),
        ],
        forall|name: Seq<char>|
            #[trigger] member_channels(s.chans, nick_key(u.nickname@)).contains(name) <==> exists|
                i: int,
            |
                0 <= i < s.chans.len() && s.chans[i].name == name && has_user(
                    s.chans[i].users,
                    nick_key(u.nickname@),
                ),
{
    let k = nick_key(u.nickname@);
    assert(first_tag(m.tags, "label"@) == 0);
    assert(first_tag(m.tags, "batch"@) == 0);
    let change = MemberChange::Rename(k, new@);
    lemma_apply_op_index(s.chans, change);
    let after = receive(s, m).0.chans;
    assert(after == apply_op(s.chans, change));
    assert forall|i: int|
        0 <= i < s.chans.len() && (nick_key(new@) == k || !has_user(s.chans[i].users, nick_key(new@)))
            implies #[trigger] after[i].users.len() == s.chans[i].users.len() by {
        lemma_rename_in_index(s.chans[i].users, k, new@);
    }
    assert forall|i: int, j: int|
        0 <= i < s.chans.len() && 0 <= j < s.chans[i].users.len() && (nick_key(new@) == k
            || !has_user(s.chans[i].users, nick_key(new@))) implies #[trigger] after[i].users[j]
        == if nick_key(s.chans[i].users[j].nick) == k {
        UserView { nick: new@, access: s.chans[i].users[j].access }
    } else {
        s.chans[i].users[j]
    } by {
        let us = s.chans[i].users;
        lemma_rename_in_index(us, k, new@);
        assert(after[i].users == op_users(s.chans[i], change));
        if !has_user(us, k) {
            assert(op_users(s.chans[i], change) == us);
            if nick_key(us[j].nick) == k {
                assert(has_user(us, k));
            }
        } else {
            assert(op_users(s.chans[i], change) == rename_in(us, k, new@));
        }
    }
    assert(renamed_everywhere(s.chans, after, k, new@));
    assert forall|name: Seq<char>|
        #[trigger] member_channels(s.chans, k).contains(name) <==> exists|i: int|
            0 <= i < s.chans.len() && s.chans[i].name == name && has_user(s.chans[i].users, k) by {
        lemma_member_channels(s.chans, k, name);
    }
}

/// At-most-once use of a label: the first reply carrying a pending label takes
/// its context and uses it up, whatever the reply is; a second reply with
/// that label finds no context under it and is handled as an unlabelled one.
pub proof fn lemma_label_used_once(s: SessionView, seed: nat, m: MsgView, l: String)
    requires
        labels_wf(s.labels, seed),
        first_label(s.labels, l@) < s.labels.len(),
        m.tags.len() == 1,
        m.tags[0].key@ == "label"@,
        m.tags[0].value == Some(l),
    ensures
        resolve(s, Some(l), None, None).0 == Some(s.labels[first_label(s.labels, l@) as int].context),
        ({
            let s2 = receive(s, m).0;
            &&& s2.labels == s.labels.remove(first_label(s.labels, l@) as int)
            &&& resolve(s2, Some(l), None, None) == (None::<Context>, s2.labels)
        }),
{
    let i = first_label(s.labels, l@) as int;
    lemma_labels_distinct(s.labels, seed, l@);
    reveal_strlit("label");
    reveal_strlit("batch");
    assert(first_tag(m.tags, "label"@) == 0);
    let rest = m.tags.remove(0);
    assert(rest.len() == 0);
    assert(first_tag(rest, "batch"@) == 0);
    let s2 = receive(s, m).0;
    let labels = s.labels.remove(i);
    assert(s2.labels == labels);
    assert forall|j: int| 0 <= j < labels.len() implies #[trigger] labels[j].label@ != l@ by {
        if j < i {
            assert(labels[j] == s.labels[j]);
        } else {
            assert(labels[j] == s.labels[j + 1]);
        }
    }
    lemma_first_label(labels, l@, labels.len() as int);
}

/// Echo suppression: a PRIVMSG or NOTICE from ourselves that comes back
/// under a pending label of a send from a buffer is not shown; the same
/// message with no tags is shown once.
pub proof fn lemma_echo_suppression(s: SessionView, m: MsgView, l: String)
    requires
        m.command is PRIVMSG || m.command is NOTICE,
        prefix_user(m.prefix) matches Some(u) && nick_key(u.nickname@) == nick_key(s.nick),
        m.tags.len() == 1,
        m.tags[0].key@ == "label"@,
        m.tags[0].value == Some(l),
        first_label(s.labels, l@) < s.labels.len(),
        s.labels[first_label(s.labels, l@) as int].context is Buffer,
    ensures
        receive(s, m).1.len() == 0,
        receive(s, MsgView { tags: Seq::empty(), ..m }).1 == seq![
            EventView::Single(MsgView { tags: Seq::empty(), ..m }, s.nick),
        ],
{
    reveal_strlit("label");
    reveal_strlit("batch");
    assert(first_tag(m.tags, "label"@) == 0);
    let rest = m.tags.remove(0);
    assert(rest.len() == 0);
    assert(first_tag(rest, "batch"@) == 0);
    let bare = MsgView { tags: Seq::empty(), ..m };
    assert(first_tag(bare.tags, "label"@) == 0);
    assert(first_tag(bare.tags, "batch"@) == 0);
    assert(MsgView { tags: bare.tags, ..bare } == bare);
}

} // verus!
