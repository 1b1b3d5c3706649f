use vstd::prelude::*;

verus! {

/// The font the user configured, if any.
pub struct Font {
    pub family: Option<String>,
    pub size: Option<u8>,
}

/// Why the configuration could not be used.
pub enum Error {
    Read(String),
    Io(String),
    Parse(String),
}

} // verus!
