use vstd::prelude::*;

verus! {

/// The identity of one configured network connection.
pub struct Server {
    pub name: String,
}

impl Clone for Server {
    fn clone(&self) -> (r: Self)
        ensures
            r == *self,
    {
        Server { name: self.name.clone() }
    }
}

impl Server {
    pub fn new(name: String) -> (r: Server)
        ensures
            r.name == name,
    {
        Server { name }
    }
}

/// A place where messages are shown: a server's own buffer, a channel or a
/// conversation with one user.
pub enum Buffer {
    Server(Server),
    Channel(Server, String),
    Query(Server, String),
}

impl Buffer {
    pub open spec fn server_of(&self) -> Server {
        match self {
            Buffer::Server(s) => *s,
            Buffer::Channel(s, _) => *s,
            Buffer::Query(s, _) => *s,
        }
    }

    /// The server the buffer belongs to.
    pub fn server(&self) -> (r: &Server)
        ensures
            *r == self.server_of(),
    {
        match self {
            Buffer::Server(s) => s,
            Buffer::Channel(s, _) => s,
            Buffer::Query(s, _) => s,
        }
    }
}

impl Clone for Buffer {
    fn clone(&self) -> (r: Self)
        ensures
            r == *self,
    {
        match self {
            Buffer::Server(s) => Buffer::Server(s.clone()),
            Buffer::Channel(s, c) => Buffer::Channel(s.clone(), c.clone()),
            Buffer::Query(s, n) => Buffer::Query(s.clone(), n.clone()),
        }
    }
}

} // verus!
