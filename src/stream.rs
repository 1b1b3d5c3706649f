use vstd::prelude::*;

use crate::buffer::Server;
use crate::format::join;
use crate::proto::{strs, Command, Message};
use crate::text::{push_char, split, split_on};

verus! {

/// How long to wait after a failed attempt before the next one, in milliseconds.
pub const RECONNECT_DELAY_MILLIS: u64 = 10000;

/// The period of the output batcher, in milliseconds; the first flush comes one
/// period after the connection is made.
pub const BATCH_INTERVAL_MILLIS: u64 = 50;

/// How long to wait before connecting, given the time of the last failed
/// attempt and the time now (milliseconds on one monotonic clock): what is
/// left of the reconnect delay, and nothing where no attempt failed yet.
pub open spec fn wait_before_connect(last_retry: Option<u64>, now: u64) -> nat {
    match last_retry {
        None => 0,
        Some(t) => {
            let elapsed: int = if now >= t {
                now - t
            } else {
                0
            };
            if elapsed >= RECONNECT_DELAY_MILLIS {
                0
            } else {
                (RECONNECT_DELAY_MILLIS - elapsed) as nat
            }
        },
    }
}

pub fn reconnect_wait(last_retry: Option<u64>, now: u64) -> (r: u64)
    ensures
        r == wait_before_connect(last_retry, now),
        r <= RECONNECT_DELAY_MILLIS,
        last_retry matches Some(t) ==> (now >= t ==> now + r >= t + RECONNECT_DELAY_MILLIS),
        last_retry matches Some(t) ==> (now >= t + RECONNECT_DELAY_MILLIS ==> r == 0),
{
    match last_retry {
        None => 0,
        Some(t) => {
            let elapsed = if now >= t {
                now - t
            } else {
                0
            };
            if elapsed >= RECONNECT_DELAY_MILLIS {
                0
            } else {
                RECONNECT_DELAY_MILLIS - elapsed
            }
        },
    }
}

// ---------------------------------------------------------------------------
// Capability negotiation.
/// The capabilities to request from an advertised list: `server-time` and
/// `batch` each where offered, and `echo-message` with `labeled-response`
/// only where both are offered.
pub open spec fn wanted_caps(advertised: Seq<Seq<char>>) -> Seq<Seq<char>> {
    (if advertised.contains("server-time"@) {
        seq!["server-time"@]
    } else {
        Seq::empty()
    }) + (if advertised.contains("batch"@) {
        seq!["batch"@]
    } else {
        Seq::empty()
    }) + (if advertised.contains("echo-message"@) && advertised.contains("labeled-response"@) {
        seq!["echo-message"@, "labeled-response"@]
    } else {
        Seq::empty()
    })
}

/// The listing gathered while the server answers `CAP LS`.
pub struct CapNegotiation {
    listing: String,
    finished: bool,
    cut_short: bool,
}

pub struct CapView {
    pub listing: Seq<char>,
    pub finished: bool,
    /// whether a reply without capabilities ended the listing
    pub cut_short: bool,
}

/// What one message adds to a capability listing: a `CAP * LS` reply with
/// one argument is the last line; with two, the first marks that more
/// follows; one without arguments ends the listing early. Other messages
/// change nothing.
pub open spec fn cap_step(s: CapView, m: Command) -> CapView {
    match m {
        Command::CAP(_, sub, a, b) => if sub@ == "LS"@ {
            match (a, b) {
                (Some(caps), None) => CapView { listing: s.listing.push(' ') + caps@, finished: true, ..s },
                (Some(_), Some(caps)) => CapView { listing: s.listing.push(' ') + caps@, ..s },
                _ => CapView { finished: true, cut_short: true, ..s },
            }
        } else {
            s
        },
        _ => s,
    }
}

fn contains_text(v: &Vec<String>, wanted: &str) -> (r: bool)
    ensures
        r == strs(v@).contains(wanted@),
{
    let w = String::from_str(wanted);
    let mut i: usize = 0;
    while i < v.len()
        invariant
            w@ == wanted@,
            i <= v@.len(),
            forall|j: int| 0 <= j < i ==> v@[j]@ != wanted@,
        decreases v@.len() - i,
    {
        if v[i] == w {
            assert(strs(v@)[i as int] == wanted@);
            return true;
        }
        i = i + 1;
    }
    proof {
        if strs(v@).contains(wanted@) {
            let j = choose|j: int| 0 <= j < strs(v@).len() && strs(v@)[j] == wanted@;
            assert(v@[j]@ == wanted@);
        }
    }
    false
}

fn push_text(v: &mut Vec<String>, t: &str)
    ensures
        strs(final(v)@) == strs(old(v)@).push(t@),
{
    v.push(String::from_str(t));
    assert(strs(v@) =~= strs(old(v)@).push(t@));
}

impl CapNegotiation {
    pub closed spec fn view(&self) -> CapView {
        CapView { listing: self.listing@, finished: self.finished, cut_short: self.cut_short }
    }

    pub fn new() -> (r: CapNegotiation)
        ensures
            r@ == (CapView { listing: Seq::empty(), finished: false, cut_short: false }),
    {
        CapNegotiation { listing: String::new(), finished: false, cut_short: false }
    }

    /// Whether the listing is complete.
    pub fn is_finished(&self) -> (r: bool)
        ensures
            r == self@.finished,
    {
        self.finished
    }

    /// Whether a malformed reply ended the listing early; what was listed
    /// before it still counts.
    pub fn was_cut_short(&self) -> (r: bool)
        ensures
            r == self@.cut_short,
    {
        self.cut_short
    }

    /// Takes one message received while the listing is read.
    pub fn receive(&mut self, message: &Message)
        ensures
            final(self)@ == cap_step(old(self)@, message.command),
    {
        match &message.command {
            Command::CAP(_, sub, a, b) => {
                if *sub == String::from_str("LS") {
                    match a {
                        Some(first) => {
                            let more = b.is_some();
                            let caps = match b {
                                Some(second) => second,
                                None => first,
                            };
                            push_char(&mut self.listing, ' ');
                            self.listing.append(caps.as_str());
                            if !more {
                                self.finished = true;
                            }
                        },
                        None => {
                            self.finished = true;
                            self.cut_short = true;
                        },
                    }
                }
            },
            _ => {},
        }
    }

    /// The capabilities to request, in the order of `wanted_caps`.
    pub fn requested(&self) -> (r: Vec<String>)
        ensures
            strs(r@) == wanted_caps(split_on(self@.listing, ' ')),
    {
        let advertised = split(self.listing.as_str(), ' ');
        assert(strs(advertised@) =~= split_on(self@.listing, ' '));
        let mut caps: Vec<String> = Vec::new();
        assert(strs(caps@) =~= Seq::empty());
        let ghost a = split_on(self@.listing, ' ');
        let time = contains_text(&advertised, "server-time");
        let batch = contains_text(&advertised, "batch");
        let echo = contains_text(&advertised, "echo-message");
        let labels = contains_text(&advertised, "labeled-response");
        if time {
            push_text(&mut caps, "server-time");
        }
        let ghost after_time = strs(caps@);
        if batch {
            push_text(&mut caps, "batch");
        }
        let ghost after_batch = strs(caps@);
        if echo && labels {
            push_text(&mut caps, "echo-message");
            push_text(&mut caps, "labeled-response");
        }
        assert(after_time =~= (if a.contains("server-time"@) {
            seq!["server-time"@]
        } else {
            Seq::<Seq<char>>::empty()
        }));
        assert(after_batch =~= after_time + (if a.contains("batch"@) {
            seq!["batch"@]
        } else {
            Seq::<Seq<char>>::empty()
        }));
        assert(strs(caps@) =~= after_batch + (if a.contains("echo-message"@) && a.contains(
            "labeled-response"@,
        ) {
            seq!["echo-message"@, "labeled-response"@]
        } else {
            Seq::<Seq<char>>::empty()
        }));
        caps
    }
}

/// The request that opens negotiation: `CAP LS 302`.
pub fn cap_ls() -> (r: Message)
    ensures
        r.tags@.len() == 0,
        r.prefix is None,
        r.command matches Command::CAP(None, sub, Some(v), None) && sub@ == "LS"@ && v@ == "302"@,
{
    Message::new(
        Command::CAP(None, String::from_str("LS"), Some(String::from_str("302")), None),
    )
}

/// The request for the chosen capabilities: `CAP REQ` with them, separated by spaces.
pub fn cap_request(caps: &Vec<String>) -> (r: Message)
    ensures
        r.tags@.len() == 0,
        r.prefix is None,
        r.command matches Command::CAP(None, sub, Some(v), None) && sub@ == "REQ"@ && v@ == join(
            strs(caps@),
            ' ',
        ),
{
    let list = crate::format::join_with(caps, ' ');
    Message::new(Command::CAP(None, String::from_str("REQ"), Some(list), None))
}

// ---------------------------------------------------------------------------
// Output batching.
/// Messages received since the last flush, in arrival order.
pub struct Batch {
    messages: Vec<Message>,
}

impl Batch {
    pub closed spec fn view(&self) -> Seq<Message> {
        self.messages@
    }

    pub fn new() -> (r: Batch)
        ensures
            r@ == Seq::<Message>::empty(),
    {
        let r = Batch { messages: Vec::new() };
        assert(r@ =~= Seq::<Message>::empty());
        r
    }

    /// Keeps one received message for the next flush.
    pub fn push(&mut self, message: Message)
        ensures
            final(self)@ == old(self)@.push(message),
    {
        self.messages.push(message);
    }

    /// At a flush tick: the messages kept since the last flush, in arrival
    /// order, if there are any; the batcher is then empty.
    pub fn flush(&mut self) -> (r: Option<Vec<Message>>)
        ensures
            final(self)@ == Seq::<Message>::empty(),
            old(self)@.len() == 0 ==> r is None,
            old(self)@.len() > 0 ==> (r matches Some(v) && v@ == old(self)@),
    {
        if self.messages.len() == 0 {
            assert(self@ =~= Seq::<Message>::empty());
            None
        } else {
            let mut out: Vec<Message> = Vec::new();
            std::mem::swap(&mut out, &mut self.messages);
            assert(self@ =~= Seq::<Message>::empty());
            Some(out)
        }
    }
}

// ---------------------------------------------------------------------------
// The lifecycle of one connection.
/// What the supervisor reports about a server.
#[allow(inconsistent_fields)]
pub enum Update {
    Connected { server: Server, is_initial: bool },
    Disconnected { server: Server, is_initial: bool, error: Option<String> },
    ConnectionFailed { server: Server, error: String },
    MessagesReceived(Server, Vec<Message>),
}

/// Whether the transport is down (with the time of the last failed attempt,
/// if any) or up.
pub enum Phase {
    Disconnected { last_retry: Option<u64> },
    Connected,
}

/// The decisions of the supervisor of one server; whoever drives it makes the
/// connection, reads the socket and keeps the clock.
pub struct Supervisor {
    server: Server,
    phase: Phase,
    is_initial: bool,
    batch: Batch,
}

pub struct SupervisorView {
    pub server: Server,
    pub phase: Phase,
    pub is_initial: bool,
    pub pending: Seq<Message>,
}

/// The supervisor after a message arrives: it waits for the next flush.
pub open spec fn with_message(v: SupervisorView, m: Message) -> SupervisorView {
    SupervisorView { pending: v.pending.push(m), ..v }
}

/// The supervisor after messages arrive in order.
pub open spec fn with_messages(v: SupervisorView, ms: Seq<Message>) -> SupervisorView
    decreases ms.len(),
{
    if ms.len() == 0 {
        v
    } else {
        with_message(with_messages(v, ms.drop_last()), ms.last())
    }
}

/// A flush tick: nothing waits any more, and what waited is reported if anything did.
pub open spec fn flushed(v: SupervisorView) -> (SupervisorView, Option<Seq<Message>>) {
    (
        SupervisorView { pending: Seq::empty(), ..v },
        if v.pending.len() == 0 {
            None
        } else {
            Some(v.pending)
        },
    )
}

proof fn lemma_pending(v: SupervisorView, ms: Seq<Message>)
    ensures
        with_messages(v, ms).pending == v.pending + ms,
        with_messages(v, ms).server == v.server,
    decreases ms.len(),
{
    if ms.len() > 0 {
        lemma_pending(v, ms.drop_last());
        assert(v.pending + ms =~= (v.pending + ms.drop_last()).push(ms.last()));
    }
}

/// Output batching: the messages that arrive between two flush ticks come out
/// at the second tick in one update, all of them and in arrival order; where
/// none arrived, the tick reports nothing.
pub proof fn lemma_output_batching(v: SupervisorView, ms: Seq<Message>)
    requires
        v.pending.len() == 0,
    ensures
        flushed(with_messages(v, ms)).1 == if ms.len() == 0 {
            None::<Seq<Message>>
        } else {
            Some(ms)
        },
        flushed(with_messages(v, ms)).0.pending.len() == 0,
{
    lemma_pending(v, ms);
    assert(v.pending + ms =~= ms);
}

impl Supervisor {
    pub closed spec fn view(&self) -> SupervisorView {
        SupervisorView {
            server: self.server,
            phase: self.phase,
            is_initial: self.is_initial,
            pending: self.batch@,
        }
    }

    /// A supervisor for `server`, and the first update: not connected yet.
    pub fn new(server: Server) -> (r: (Supervisor, Update))
        ensures
            r.0@ == (SupervisorView {
                server,
                phase: Phase::Disconnected { last_retry: None },
                is_initial: true,
                pending: Seq::empty(),
            }),
            r.1 == (Update::Disconnected { server, is_initial: true, error: None }),
    {
        let update = Update::Disconnected { server: server.clone(), is_initial: true, error: None };
        (
            Supervisor {
                server,
                phase: Phase::Disconnected { last_retry: None },
                is_initial: true,
                batch: Batch::new(),
            },
            update,
        )
    }

    /// How long to wait, at `now`, before the next connection attempt.
    pub fn connect_delay(&self, now: u64) -> (r: u64)
        ensures
            self@.phase matches Phase::Disconnected { last_retry } ==> r == wait_before_connect(
                last_retry,
                now,
            ),
            self@.phase is Connected ==> r == 0,
    {
        match &self.phase {
            Phase::Disconnected { last_retry } => reconnect_wait(*last_retry, now),
            Phase::Connected => 0,
        }
    }

    /// The connection was made: report it, initial only the first time.
    pub fn connected(&mut self) -> (r: Update)
        ensures
            r == (Update::Connected { server: old(self)@.server, is_initial: old(self)@.is_initial }),
            final(self)@ == (SupervisorView {
                server: old(self)@.server,
                phase: Phase::Connected,
                is_initial: false,
                pending: Seq::empty(),
            }),
    {
        let update = Update::Connected { server: self.server.clone(), is_initial: self.is_initial };
        self.is_initial = false;
        self.phase = Phase::Connected;
        self.batch = Batch::new();
        update
    }

    /// A connection attempt failed at `now`.
    pub fn connection_failed(&mut self, error: String, now: u64) -> (r: Update)
        ensures
            r == (Update::ConnectionFailed { server: old(self)@.server, error }),
            final(self)@ == (SupervisorView {
                phase: Phase::Disconnected { last_retry: Some(now) },
                ..old(self)@
            }),
    {
        self.phase = Phase::Disconnected { last_retry: Some(now) };
        Update::ConnectionFailed { server: self.server.clone(), error }
    }

    /// A message arrived: it waits for the next flush.
    pub fn message(&mut self, message: Message)
        ensures
            final(self)@ == with_message(old(self)@, message),
    {
        self.batch.push(message);
    }

    /// A flush tick: the messages since the last one, if any, in one update.
    pub fn tick(&mut self) -> (r: Option<Update>)
        ensures
            final(self)@ == flushed(old(self)@).0,
            flushed(old(self)@).1 is None ==> r is None,
            flushed(old(self)@).1 matches Some(ms) ==> (r matches Some(
                Update::MessagesReceived(s, v),
            ) && s == old(self)@.server && v@ == ms),
    {
        match self.batch.flush() {
            Some(messages) => {
                proof {
                    assert(self@.pending =~= Seq::empty());
                }
                Some(Update::MessagesReceived(self.server.clone(), messages))
            },
            None => None,
        }
    }

    /// The transport failed at `now`: report it and wait to reconnect.
    pub fn transport_error(&mut self, error: String, now: u64) -> (r: Update)
        ensures
            r == (Update::Disconnected {
                server: old(self)@.server,
                is_initial: old(self)@.is_initial,
                error: Some(error),
            }),
            final(self)@ == (SupervisorView {
                phase: Phase::Disconnected { last_retry: Some(now) },
                pending: Seq::empty(),
                ..old(self)@
            }),
    {
        self.phase = Phase::Disconnected { last_retry: Some(now) };
        self.batch = Batch::new();
        Update::Disconnected { server: self.server.clone(), is_initial: self.is_initial, error: Some(error) }
    }
}

/// The reply that keeps a connection alive: a PONG with the token of a PING.
pub fn pong_for(message: &Message) -> (r: Option<Message>)
    ensures
        message.command matches Command::PING(token) ==> (r matches Some(m) && m.command
            == Command::PONG(token) && m.tags@.len() == 0 && m.prefix is None),
        !(message.command is PING) ==> r is None,
{
    match &message.command {
        Command::PING(token) => Some(Message::new(Command::PONG(token.clone()))),
        _ => None,
    }
}

/// The message that ends capability negotiation: `CAP END`.
pub fn cap_end() -> (r: Message)
    ensures
        r.tags@.len() == 0,
        r.prefix is None,
        r.command matches Command::CAP(None, sub, None, None) && sub@ == "END"@,
{
    Message::new(Command::CAP(None, String::from_str("END"), None, None))
}

} // verus!
