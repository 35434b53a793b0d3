//! Connection registry: the process-wide map from connection id to
//! per-connection input state, created on channel open and removed only on
//! explicit channel close.

use vstd::prelude::*;

use std::collections::HashMap;

use crate::terminal::TerminalInput;

verus! {

broadcast use vstd::std_specs::hash::group_hash_axioms;

/// Per-connection state the registry owns: who is connected and the line
/// being edited.
pub struct ConnectionState {
    pub identity: String,
    pub term: TerminalInput,
}

/// The id-to-state map. Entries never expire: removal only happens on close.
pub struct Registry {
    map: HashMap<usize, ConnectionState>,
}

impl Registry {
    pub closed spec fn view(&self) -> Map<usize, ConnectionState> {
        self.map@
    }

    pub fn new() -> (r: Self)
        ensures
            r@ == Map::<usize, ConnectionState>::empty(),
    {
        Registry { map: HashMap::new() }
    }

    /// Inserts a fresh entry for a newly opened channel.
    pub fn open(&mut self, id: usize, identity: String)
        ensures
            final(self)@.dom() == old(self)@.dom().insert(id),
            final(self)@[id].identity@ == identity@,
            final(self)@[id].term.buffer() == Seq::<u8>::empty(),
            final(self)@[id].term.wf(),
            forall|k: usize|
                k != id && old(self)@.dom().contains(k) ==> final(self)@[k] == old(self)@[k],
    {
        let st = ConnectionState { identity, term: TerminalInput::new() };
        self.map.insert(id, st);
        proof {
            assert(final(self)@.dom() =~= old(self)@.dom().insert(id));
        }
    }

    /// Whether a connection is registered.
    pub fn contains(&self, id: usize) -> (r: bool)
        ensures
            r == self@.dom().contains(id),
    {
        self.map.contains_key(&id)
    }

    /// Looks a connection up for output routing and input handling.
    pub fn get(&self, id: usize) -> (r: Option<&ConnectionState>)
        ensures
            match r {
                Option::Some(st) => self@.dom().contains(id) && *st == self@[id],
                Option::None => !self@.dom().contains(id),
            },
    {
        self.map.get(&id)
    }

    /// Takes a connection's state out for mutation.
    pub fn take(&mut self, id: usize) -> (r: Option<ConnectionState>)
        ensures
            final(self)@ == old(self)@.remove(id),
            match r {
                Option::Some(st) => old(self)@.dom().contains(id) && st == old(self)@[id],
                Option::None => !old(self)@.dom().contains(id),
            },
    {
        self.map.remove(&id)
    }

    /// Puts a connection's state back (or stores an updated one).
    pub fn put(&mut self, id: usize, st: ConnectionState)
        ensures
            final(self)@ == old(self)@.insert(id, st),
    {
        self.map.insert(id, st);
    }

    /// Removes the entry on channel close; later writes to the connection
    /// find no entry and become no-ops.
    pub fn close(&mut self, id: usize)
        ensures
            final(self)@ == old(self)@.remove(id),
    {
        self.map.remove(&id);
    }
}

} // verus!
