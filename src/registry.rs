use vstd::prelude::*;

use crate::buffer::{Buffer, Server};
use crate::client::{
    event_views, is_snapshot, labelling, receive, starts_reroute, users_in, Client, Event, Status,
};
use crate::proto::Message;
use crate::user::User;

verus! {

/// The state of one server in the registry.
pub enum State {
    Disconnected,
    Ready(Client),
}

/// One server and its state.
pub struct Entry {
    pub server: Server,
    pub state: State,
}

/// The index of the first entry for `server`, or the number of entries.
pub open spec fn position(es: Seq<Entry>, server: Server) -> nat
    decreases es.len(),
{
    if es.len() == 0 {
        0
    } else if es[0].server.name@ == server.name@ {
        0
    } else {
        1 + position(es.drop_first(), server)
    }
}

/// The status that the entries give `server`.
pub open spec fn status_of(es: Seq<Entry>, server: Server) -> Status {
    let i = position(es, server);
    if i < es.len() {
        match es[i as int].state {
            State::Disconnected => Status::Disconnected,
            State::Ready(_) => Status::Connected,
        }
    } else {
        Status::Unavailable
    }
}

/// The session of `server`, where it is ready.
pub open spec fn ready(es: Seq<Entry>, server: Server) -> Option<Client> {
    let i = position(es, server);
    if i < es.len() {
        match es[i as int].state {
            State::Ready(c) => Some(c),
            State::Disconnected => None,
        }
    } else {
        None
    }
}

/// The entries with `server` in `state`: its entry replaced, or a new one added.
pub open spec fn put(es: Seq<Entry>, server: Server, state: State) -> Seq<Entry> {
    let i = position(es, server);
    if i < es.len() {
        es.update(i as int, Entry { server: es[i as int].server, state })
    } else {
        es.push(Entry { server, state })
    }
}

proof fn lemma_position(es: Seq<Entry>, server: Server, k: int)
    requires
        0 <= k <= es.len(),
        forall|j: int| 0 <= j < k ==> #[trigger] es[j].server.name@ != server.name@,
        k == es.len() || es[k].server.name@ == server.name@,
    ensures
        position(es, server) == k,
    decreases k,
{
    if k > 0 {
        assert forall|j: int| 0 <= j < k - 1 implies #[trigger] es.drop_first()[j].server.name@
            != server.name@ by {
            assert(es.drop_first()[j] == es[j + 1]);
        }
        lemma_position(es.drop_first(), server, k - 1);
    }
}

/// Every configured server and the state of its connection.
pub struct ClientMap {
    entries: Vec<Entry>,
}

/// Every session in the entries is well formed.
pub open spec fn entries_wf(es: Seq<Entry>) -> bool {
    forall|i: int|
        0 <= i < es.len() && (#[trigger] es[i]).state is Ready ==> es[i].state->Ready_0.wf()
}

impl ClientMap {
    pub closed spec fn view(&self) -> Seq<Entry> {
        self.entries@
    }

    pub open spec fn wf(&self) -> bool {
        entries_wf(self@)
    }

    pub fn new() -> (r: ClientMap)
        ensures
            r@.len() == 0,
            r.wf(),
    {
        ClientMap { entries: Vec::new() }
    }

    fn find(&self, server: &Server) -> (r: usize)
        ensures
            r == position(self@, *server),
            r <= self@.len(),
    {
        let mut i: usize = 0;
        while i < self.entries.len()
            invariant
                i <= self.entries@.len(),
                forall|j: int| 0 <= j < i ==> #[trigger] self.entries@[j].server.name@ != server.name@,
            decreases self.entries@.len() - i,
        {
            if self.entries[i].server.name == server.name {
                proof {
                    lemma_position(self.entries@, *server, i as int);
                }
                return i;
            }
            i = i + 1;
        }
        proof {
            lemma_position(self.entries@, *server, i as int);
        }
        i
    }

    fn set(&mut self, server: Server, state: State)
        requires
            old(self).wf(),
            state is Ready ==> state->Ready_0.wf(),
        ensures
            final(self)@ == put(old(self)@, server, state),
            final(self).wf(),
    {
        let i = self.find(&server);
        if i < self.entries.len() {
            let old_entry = self.entries.remove(i);
            self.entries.insert(i, Entry { server: old_entry.server, state });
            assert(self.entries@ =~= put(old(self)@, server, state));
        } else {
            self.entries.push(Entry { server, state });
        }
        assert forall|j: int|
            0 <= j < self@.len() && (#[trigger] self@[j]).state is Ready implies self@[j].state->Ready_0.wf() by {
            if j != i as int {
                assert(self@[j] == old(self)@[j]);
            }
        }
    }

    /// Records `server` as not connected.
    pub fn disconnected(&mut self, server: Server)
        requires
            old(self).wf(),
        ensures
            final(self).wf(),
            final(self)@ == put(old(self)@, server, State::Disconnected),
    {
        self.set(server, State::Disconnected);
    }

    /// Records the session of a connected `server`.
    pub fn ready(&mut self, server: Server, client: Client)
        requires
            old(self).wf(),
            client.wf(),
        ensures
            final(self).wf(),
            final(self)@ == put(old(self)@, server, State::Ready(client)),
    {
        self.set(server, State::Ready(client));
    }

    pub fn is_empty(&self) -> (r: bool)
        ensures
            r == (self@.len() == 0),
    {
        self.entries.len() == 0
    }

    /// Drops `server`; its session, if it had one, is handed back and its
    /// pending labels and batches go with it.
    pub fn remove(&mut self, server: &Server) -> (r: Option<Client>)
        requires
            old(self).wf(),
        ensures
            final(self).wf(),
            r == ready(old(self)@, *server),
            position(old(self)@, *server) < old(self)@.len() ==> final(self)@ == old(self)@.remove(
                position(old(self)@, *server) as int,
            ),
            position(old(self)@, *server) == old(self)@.len() ==> final(self)@ == old(self)@,
    {
        let i = self.find(server);
        if i < self.entries.len() {
            let entry = self.entries.remove(i);
            assert forall|j: int|
                0 <= j < self@.len() && (#[trigger] self@[j]).state is Ready implies self@[j].state->Ready_0.wf() by {
                if j < i {
                    assert(self@[j] == old(self)@[j]);
                } else {
                    assert(self@[j] == old(self)@[j + 1]);
                }
            }
            match entry.state {
                State::Disconnected => None,
                State::Ready(client) => Some(client),
            }
        } else {
            None
        }
    }

    /// The session of `server`, if it is connected.
    pub fn client(&self, server: &Server) -> (r: Option<&Client>)
        ensures
            r matches Some(c) ==> ready(self@, *server) == Some(*c),
            r is None ==> ready(self@, *server) is None,
    {
        let i = self.find(server);
        if i < self.entries.len() {
            match &self.entries[i].state {
                State::Ready(client) => Some(client),
                State::Disconnected => None,
            }
        } else {
            None
        }
    }

    /// Our nickname on `server`, if it is connected.
    pub fn nickname(&self, server: &Server) -> (r: Option<&str>)
        ensures
            r matches Some(n) ==> (ready(self@, *server) matches Some(c) && n@ == c@.nick),
            r is None ==> ready(self@, *server) is None,
    {
        match self.client(server) {
            Some(c) => Some(c.nickname()),
            None => None,
        }
    }

    /// Hands a received message to the session of `server`; a server that is
    /// not connected takes nothing and gives no event.
    pub fn receive(&mut self, server: &Server, message: Message) -> (r: Vec<Event>)
        requires
            old(self).wf(),
        ensures
            final(self).wf(),
            ready(old(self)@, *server) matches Some(c) ==> ({
                let i = position(old(self)@, *server) as int;
                &&& final(self)@.len() == old(self)@.len()
                &&& final(self)@[i].server == old(self)@[i].server
                &&& final(self)@[i].state matches State::Ready(n) && n@ == receive(
                    c@,
                    message.view(),
                ).0
                &&& forall|j: int|
                    0 <= j < old(self)@.len() && j != i ==> #[trigger] final(self)@[j] == old(
                        self,
                    )@[j]
                &&& event_views(r@) == receive(c@, message.view()).1
            }),
            ready(old(self)@, *server) is None ==> final(self)@ == old(self)@ && r@.len() == 0,
    {
        let i = self.find(server);
        if i < self.entries.len() {
            let is_ready = match &self.entries[i].state {
                State::Ready(_) => true,
                State::Disconnected => false,
            };
            if is_ready {
                let entry = self.entries.remove(i);
                assert(old(self)@[i as int] == entry);
                let Entry { server: name, state } = entry;
                match state {
                    State::Ready(mut client) => {
                        let events = client.receive(message);
                        self.entries.insert(i, Entry { server: name, state: State::Ready(client) });
                        assert forall|j: int|
                            0 <= j < self@.len() && (#[trigger] self@[j]).state is Ready implies self@[j].state->Ready_0.wf() by {
                            if j != i as int {
                                assert(self@[j] == old(self)@[j]);
                            }
                        }
                        return events;
                    },
                    State::Disconnected => {
                        self.entries.insert(i, Entry { server: name, state: State::Disconnected });
                        assert(self.entries@ =~= old(self)@);
                    },
                }
            }
        }
        Vec::new()
    }

    /// Refreshes what readers see of the session of `server`.
    pub fn sync(&mut self, server: &Server)
        requires
            old(self).wf(),
        ensures
            final(self).wf(),
            ready(old(self)@, *server) matches Some(c) ==> ({
                let i = position(old(self)@, *server) as int;
                &&& final(self)@.len() == old(self)@.len()
                &&& final(self)@[i].server == old(self)@[i].server
                &&& final(self)@[i].state matches State::Ready(n) && n@ == c@ && is_snapshot(
                    c@.chans,
                    n.channels_view(),
                    n.users_view(),
                )
                &&& forall|j: int|
                    0 <= j < old(self)@.len() && j != i ==> #[trigger] final(self)@[j] == old(
                        self,
                    )@[j]
            }),
            ready(old(self)@, *server) is None ==> final(self)@ == old(self)@,
    {
        let i = self.find(server);
        if i < self.entries.len() {
            let is_ready = match &self.entries[i].state {
                State::Ready(_) => true,
                State::Disconnected => false,
            };
            if is_ready {
                let entry = self.entries.remove(i);
                assert(old(self)@[i as int] == entry);
                let Entry { server: name, state } = entry;
                match state {
                    State::Ready(mut client) => {
                        client.sync();
                        self.entries.insert(i, Entry { server: name, state: State::Ready(client) });
                        assert forall|j: int|
                            0 <= j < self@.len() && (#[trigger] self@[j]).state is Ready implies self@[j].state->Ready_0.wf() by {
                            if j != i as int {
                                assert(self@[j] == old(self)@[j]);
                            }
                        }
                    },
                    State::Disconnected => {
                        self.entries.insert(i, Entry { server: name, state: State::Disconnected });
                        assert(self.entries@ =~= old(self)@);
                    },
                }
            }
        }
    }

    /// Prepares a message sent from `buffer` through the session of the
    /// buffer's server, and returns what goes on the wire; nothing when that
    /// server is not connected.
    pub fn send(&mut self, buffer: &Buffer, message: Message) -> (r: Option<Message>)
        requires
            old(self).wf(),
        ensures
            final(self).wf(),
            ready(old(self)@, buffer.server_of()) is None ==> r is None && final(self)@ == old(
                self,
            )@,
            ready(old(self)@, buffer.server_of()) matches Some(c) ==> ({
                let i = position(old(self)@, buffer.server_of()) as int;
                &&& r matches Some(m)
                &&& r->0.command == message.command
                &&& r->0.prefix == message.prefix
                &&& labelling(c@, c.label_seed()) ==> r->0.tags@.len() == 1 && r->0.tags@[0].key@
                    == "label"@
                &&& !labelling(c@, c.label_seed()) ==> r->0.tags == message.tags
                &&& final(self)@.len() == old(self)@.len()
                &&& final(self)@[i].state matches State::Ready(n) && n@.reroute == if starts_reroute(
                    message.command,
                ) {
                    Some(*buffer)
                } else {
                    None
                }
                &&& forall|j: int|
                    0 <= j < old(self)@.len() && j != i ==> #[trigger] final(self)@[j] == old(
                        self,
                    )@[j]
            }),
    {
        let server = buffer.server();
        let i = self.find(server);
        if i < self.entries.len() {
            let is_ready = match &self.entries[i].state {
                State::Ready(_) => true,
                State::Disconnected => false,
            };
            if is_ready {
                let entry = self.entries.remove(i);
                assert(old(self)@[i as int] == entry);
                let Entry { server: name, state } = entry;
                match state {
                    State::Ready(mut client) => {
                        let out = client.send(buffer, message);
                        self.entries.insert(i, Entry { server: name, state: State::Ready(client) });
                        assert forall|j: int|
                            0 <= j < self@.len() && (#[trigger] self@[j]).state is Ready implies self@[j].state->Ready_0.wf() by {
                            if j != i as int {
                                assert(self@[j] == old(self)@[j]);
                            }
                        }
                        return Some(out);
                    },
                    State::Disconnected => {
                        self.entries.insert(i, Entry { server: name, state: State::Disconnected });
                        assert(self.entries@ =~= old(self)@);
                    },
                }
            }
        }
        None
    }

    /// The channel list of `server` as of its last sync; none if not connected.
    pub fn get_channels(&self, server: &Server) -> (r: &[String])
        ensures
            ready(self@, *server) matches Some(c) ==> r@ == c.channels_view(),
            ready(self@, *server) is None ==> r@.len() == 0,
    {
        match self.client(server) {
            Some(c) => c.channels().as_slice(),
            None => &[],
        }
    }

    /// The members of `channel` on `server` as of the last sync.
    pub fn get_channel_users(&self, server: &Server, channel: &str) -> (r: &[User])
        ensures
            ready(self@, *server) is None ==> r@.len() == 0,
            ready(self@, *server) matches Some(c) ==> r@ == users_in(c.users_view(), channel@),
    {
        match self.client(server) {
            Some(c) => c.users(channel),
            None => &[],
        }
    }

    /// The channels of `server` where `nick` was a member as of the last sync.
    pub fn get_user_channels(&self, server: &Server, nick: &str) -> (r: Vec<String>)
        ensures
            ready(self@, *server) is None ==> r@.len() == 0,
            ready(self@, *server) matches Some(c) ==> crate::proto::strs(r@)
                == crate::membership::member_channels(
                crate::membership::chan_views(c.users_view()),
                crate::text::nick_key(nick@),
            ),
    {
        match self.client(server) {
            Some(c) => c.user_channels(nick),
            None => Vec::new(),
        }
    }

    /// Every server and its state.
    pub fn entries(&self) -> (r: &[Entry])
        ensures
            r@ == self@,
    {
        self.entries.as_slice()
    }

    /// Whether `server` is connected, disconnected or not known.
    pub fn status(&self, server: &Server) -> (r: Status)
        ensures
            r == status_of(self@, *server),
    {
        let i = self.find(server);
        if i < self.entries.len() {
            match &self.entries[i].state {
                State::Disconnected => Status::Disconnected,
                State::Ready(_) => Status::Connected,
            }
        } else {
            Status::Unavailable
        }
    }
}

} // verus!
