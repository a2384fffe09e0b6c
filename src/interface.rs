//! The directory of modules, ports and their reservation locks.
use vstd::prelude::*;

use std::collections::BTreeMap;
use vstd::string::StringSliceAdditionalSpecFns;

use crate::text::{ascii, ascii_bytes, bytes_eq};

verus! {

/// A token that names no lock state.
#[derive(Debug)]
pub enum Error {
    InvalidInput(String),
}

/// Reservation state of a port.
#[derive(Debug, Clone, Copy, PartialEq, Eq, Structural)]
pub enum Lock {
    Released,
    ReservedByYou,
    ReservedByOther,
}

/// What is known of one port.
#[derive(Debug, Clone, Copy, PartialEq, Eq, Structural)]
pub struct State {
    pub lock: Lock,
}

/// The name under which a lock state is shown to people.
pub open spec fn display_name(l: Lock) -> Seq<char> {
    match l {
        Lock::Released => "Released"@,
        Lock::ReservedByYou => "ReleasedByYou"@,
        Lock::ReservedByOther => "ReleasedByOther"@,
    }
}

/// The text of a lock state on the wire.
pub open spec fn token_text(l: Lock) -> Seq<char> {
    match l {
        Lock::Released => "RELEASED"@,
        Lock::ReservedByYou => "RESERVED_BY_YOU"@,
        Lock::ReservedByOther => "RESERVED_BY_OTHER"@,
    }
}

/// The bytes of a lock state on the wire.
pub open spec fn token(l: Lock) -> Seq<u8> {
    ascii(token_text(l))
}

/// The lock state that a wire token names, if any.
pub open spec fn lock_of_token(t: Seq<u8>) -> Option<Lock> {
    if t == token(Lock::Released) {
        Some(Lock::Released)
    } else if t == token(Lock::ReservedByYou) {
        Some(Lock::ReservedByYou)
    } else if t == token(Lock::ReservedByOther) {
        Some(Lock::ReservedByOther)
    } else {
        None
    }
}

/// The lock state whose wire text is `t`, if any.
pub open spec fn lock_of_text(t: Seq<char>) -> Option<Lock> {
    if t == token_text(Lock::Released) {
        Some(Lock::Released)
    } else if t == token_text(Lock::ReservedByYou) {
        Some(Lock::ReservedByYou)
    } else if t == token_text(Lock::ReservedByOther) {
        Some(Lock::ReservedByOther)
    } else {
        None
    }
}

impl Lock {
    /// The name under which this state is shown to people.
    pub fn str(self) -> (r: &'static str)
        ensures
            r@ == display_name(self),
    {
        match self {
            Lock::Released => "Released",
            Lock::ReservedByYou => "ReleasedByYou",
            Lock::ReservedByOther => "ReleasedByOther",
        }
    }

    /// The wire token of this state.
    pub fn token(self) -> (r: &'static [u8])
        ensures
            r@ == token(self),
    {
        match self {
            Lock::Released => {
                proof {
                    reveal_strlit("RELEASED");
                }
                ascii_bytes("RELEASED")
            },
            Lock::ReservedByYou => {
                proof {
                    reveal_strlit("RESERVED_BY_YOU");
                }
                ascii_bytes("RESERVED_BY_YOU")
            },
            Lock::ReservedByOther => {
                proof {
                    reveal_strlit("RESERVED_BY_OTHER");
                }
                ascii_bytes("RESERVED_BY_OTHER")
            },
        }
    }

    /// The state that a wire token names.
    pub fn from_token(t: &[u8]) -> (r: Option<Lock>)
        ensures
            r == lock_of_token(t@),
    {
        if bytes_eq(t, Lock::Released.token()) {
            Some(Lock::Released)
        } else if bytes_eq(t, Lock::ReservedByYou.token()) {
            Some(Lock::ReservedByYou)
        } else if bytes_eq(t, Lock::ReservedByOther.token()) {
            Some(Lock::ReservedByOther)
        } else {
            None
        }
    }

    /// The state whose wire text is `value`; any other text is refused and
    /// handed back in the error.
    pub fn try_from(value: &str) -> (r: Result<Lock, Error>)
        ensures
            match r {
                Ok(l) => lock_of_text(value@) == Some(l),
                Err(Error::InvalidInput(s)) => lock_of_text(value@).is_none() && s@ == value@,
            },
    {
        let r = Lock::from_token(value.as_bytes());
        proof {
            lemma_token_bytes(value);
        }
        match r {
            Some(l) => Ok(l),
            None => Err(Error::InvalidInput(value.to_owned())),
        }
    }
}

impl From<Lock> for &'static str {
    fn from(lock: Lock) -> (r: &'static str)
        ensures
            r@ == display_name(lock),
    {
        match lock {
            Lock::Released => "Released",
            Lock::ReservedByYou => "ReleasedByYou",
            Lock::ReservedByOther => "ReleasedByOther",
        }
    }
}

impl vstd::std_specs::convert::FromSpecImpl<Lock> for &'static str {
    open spec fn obeys_from_spec() -> bool {
        true
    }

    open spec fn from_spec(v: Lock) -> &'static str {
        match v {
            Lock::Released => "Released",
            Lock::ReservedByYou => "ReleasedByYou",
            Lock::ReservedByOther => "ReleasedByOther",
        }
    }
}

/// A string spells a wire token exactly when its bytes do.
proof fn lemma_token_bytes(value: &str)
    ensures
        lock_of_token(value.spec_bytes()) == lock_of_text(value@),
{
    broadcast use vstd::utf8::encode_utf8_decode_utf8;

    reveal_strlit("RELEASED");
    reveal_strlit("RESERVED_BY_YOU");
    reveal_strlit("RESERVED_BY_OTHER");
    assert forall|l: Lock| value.spec_bytes() == #[trigger] token(l) <==> value@ == token_text(l) by {
        let t = token_text(l);
        assert(vstd::utf8::is_ascii_chars(t));
        vstd::utf8::is_ascii_chars_encode_utf8(t);
        assert(token(l) =~= vstd::utf8::encode_utf8(t));
        if value.spec_bytes() == token(l) {
            assert(vstd::utf8::decode_utf8(vstd::utf8::encode_utf8(value@)) == value@);
            assert(vstd::utf8::decode_utf8(vstd::utf8::encode_utf8(t)) == t);
        }
    }
}

/// The ports of `module` in a directory; none when the module is absent.
pub open spec fn ports_of(d: Map<u8, Map<u8, State>>, module: u8) -> Map<u8, State> {
    if d.contains_key(module) {
        d[module]
    } else {
        Map::empty()
    }
}

/// `d` with `state` recorded for `module`/`port`, other entries kept.
pub open spec fn with_port(d: Map<u8, Map<u8, State>>, module: u8, port: u8, state: State) -> Map<
    u8,
    Map<u8, State>,
> {
    d.insert(module, ports_of(d, module).insert(port, state))
}

/// Module id to port id to state, as reported by one query.
#[derive(Debug)]
pub struct Interfaces {
    pub modules: BTreeMap<u8, BTreeMap<u8, State>>,
}

impl View for Interfaces {
    type V = Map<u8, Map<u8, State>>;

    open spec fn view(&self) -> Map<u8, Map<u8, State>> {
        self.modules@.map_values(|ports: BTreeMap<u8, State>| ports@)
    }
}

impl Default for Interfaces {
    fn default() -> (r: Interfaces)
        ensures
            r@ == Map::<u8, Map<u8, State>>::empty(),
    {
        Interfaces::new()
    }
}

impl Interfaces {
    /// An empty directory.
    pub fn new() -> (r: Interfaces)
        ensures
            r@ == Map::<u8, Map<u8, State>>::empty(),
    {
        let r = Interfaces { modules: BTreeMap::new() };
        assert(r@ =~= Map::<u8, Map<u8, State>>::empty());
        r
    }

    /// Records `state` for `module`/`port`, replacing what was known of that
    /// port and keeping every other entry.
    pub fn insert(&mut self, module: u8, port: u8, state: State)
        ensures
            final(self)@ == with_port(old(self)@, module, port, state),
    {
        let ghost before = self@;
        let mut ports = match self.modules.remove(&module) {
            Some(p) => p,
            None => BTreeMap::new(),
        };
        assert(ports@ == ports_of(before, module));
        ports.insert(port, state);
        self.modules.insert(module, ports);
        assert(self@ =~= with_port(before, module, port, state));
    }

    /// The state recorded for `module`/`port`, if any.
    pub fn get(&self, module: u8, port: u8) -> (r: Option<State>)
        ensures
            r == (if self@.contains_key(module) && self@[module].contains_key(port) {
                Some(self@[module][port])
            } else {
                None
            }),
    {
        match self.modules.get(&module) {
            Some(ports) => match ports.get(&port) {
                Some(s) => Some(*s),
                None => None,
            },
            None => None,
        }
    }

    /// The number of modules in the directory.
    pub fn module_count(&self) -> (r: usize)
        ensures
            r == self@.len(),
    {
        assert(self@.dom() =~= self.modules@.dom());
        self.modules.len()
    }

    /// The number of ports recorded for `module`.
    pub fn port_count(&self, module: u8) -> (r: usize)
        ensures
            r == ports_of(self@, module).len(),
    {
        match self.modules.get(&module) {
            Some(ports) => ports.len(),
            None => 0,
        }
    }
}

} // verus!
