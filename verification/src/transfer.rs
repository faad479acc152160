//! Buffers on their way between isolates, with no byte copied: each is parked
//! under a token until the other isolate takes it.

use std::collections::HashMap;
use vstd::prelude::*;

verus! {

/// A parked buffer: its memory, and whether its source still shares it.
#[derive(Debug)]
pub struct Parked<S> {
    pub store: S,
    pub shared: bool,
}

/// The buffers that were handed out and not taken yet.
#[derive(Debug)]
pub struct TransferRegistry<S> {
    parked: HashMap<u64, Parked<S>>,
    next_token: u64,
}

/// What an export has to work with.
#[derive(Debug, Clone, Copy, PartialEq, Eq, Structural)]
pub enum Offered {
    /// A buffer or a view of one, and whether it can be detached.
    Buffer { detachable: bool },
    /// A buffer that is shared, not handed over.
    SharedBuffer,
    /// Anything else.
    Other,
}

/// What an export does.
#[derive(Debug, Clone, Copy, PartialEq, Eq, Structural)]
pub enum Export {
    /// Take hold of the memory, detach the source, and park the memory if that
    /// worked.
    DetachAndPark,
    /// Take hold of the memory and park it as shared.
    ParkShared,
    /// Return zero: the caller has to copy.
    Refuse,
}

/// Only what can be taken from its source is handed over: a buffer that both
/// sides could still write to would be shared behind the script's back.
pub fn transfer_out(offered: Offered) -> (export: Export)
    ensures
        export == (if offered == (Offered::Buffer { detachable: true }) {
            Export::DetachAndPark
        } else {
            Export::Refuse
        }),
{
    match offered {
        Offered::Buffer { detachable } => if detachable {
            Export::DetachAndPark
        } else {
            Export::Refuse
        },
        _ => Export::Refuse,
    }
}

/// Only a buffer made for sharing is shared.
pub fn share_out(offered: Offered) -> (export: Export)
    ensures
        export == (if offered == Offered::SharedBuffer {
            Export::ParkShared
        } else {
            Export::Refuse
        }),
{
    match offered {
        Offered::SharedBuffer => Export::ParkShared,
        _ => Export::Refuse,
    }
}

/// What an import yields, and what is parked after it: only a buffer of the right
/// kind is taken.
pub open spec fn taken<S>(
    parked: Map<u64, Parked<S>>,
    token: u64,
    shared: bool,
) -> (Option<S>, Map<u64, Parked<S>>) {
    if parked.contains_key(token) && parked[token].shared == shared {
        (Some(parked[token].store), parked.remove(token))
    } else {
        (None, parked)
    }
}

impl<S> TransferRegistry<S> {
    /// The parked buffers by token.
    pub closed spec fn view(&self) -> Map<u64, Parked<S>> {
        self.parked@
    }

    /// The token to be given out next.
    pub closed spec fn next(self) -> u64 {
        self.next_token
    }

    /// Tokens start at one and are given out once: zero stands for no buffer.
    pub open spec fn wf(self) -> bool {
        &&& self.next() >= 1
        &&& forall|t: u64| #[trigger] self@.contains_key(t) ==> 1 <= t < self.next()
        &&& self@.dom().finite()
    }

    /// Nothing is parked.
    pub fn new() -> (registry: Self)
        ensures
            registry.wf(),
            registry@ == Map::<u64, Parked<S>>::empty(),
            registry.next() == 1,
    {
        broadcast use vstd::std_specs::hash::group_hash_axioms;

        TransferRegistry { parked: HashMap::new(), next_token: 1 }
    }

    /// Is there a token left to give out?
    pub fn has_room(&self) -> (room: bool)
        ensures
            room == (self.next() < u64::MAX),
    {
        self.next_token < u64::MAX
    }

    /// Parks a buffer and returns its token, which no buffer has had before.
    pub fn park(&mut self, store: S, shared: bool) -> (token: u64)
        requires
            old(self).wf(),
            old(self).next() < u64::MAX,
        ensures
            final(self).wf(),
            token == old(self).next(),
            final(self).next() == token + 1,
            !old(self)@.contains_key(token),
            final(self)@ == old(self)@.insert(token, Parked { store, shared }),
    {
        broadcast use vstd::std_specs::hash::group_hash_axioms;

        let token: u64 = self.next_token;
        self.next_token = token + 1;
        self.parked.insert(token, Parked { store, shared });
        token
    }

    /// Takes a parked buffer of the right kind. One of the other kind stays
    /// parked.
    pub fn take_store(&mut self, token: u64, want_shared: bool) -> (store: Option<S>)
        requires
            old(self).wf(),
        ensures
            final(self).wf(),
            final(self).next() == old(self).next(),
            (store, final(self)@) == taken(old(self)@, token, want_shared),
    {
        broadcast use vstd::std_specs::hash::group_hash_axioms;

        let fits = match self.parked.get(&token) {
            Some(parked) => parked.shared == want_shared,
            None => false,
        };
        if !fits {
            return None;
        }
        match self.parked.remove(&token) {
            Some(parked) => Some(parked.store),
            None => None,
        }
    }

    /// Lets go of a parked buffer of either kind.
    pub fn transfer_drop(&mut self, token: u64)
        requires
            old(self).wf(),
        ensures
            final(self).wf(),
            final(self).next() == old(self).next(),
            final(self)@ == old(self)@.remove(token),
    {
        broadcast use vstd::std_specs::hash::group_hash_axioms;

        self.parked.remove(&token);
        assert(self@ =~= old(self)@.remove(token));
    }

    /// How many buffers are parked.
    pub fn pending_transfer_count(&self) -> (count: usize)
        ensures
            count == self@.len(),
    {
        broadcast use vstd::std_specs::hash::group_hash_axioms;

        self.parked.len()
    }
}

/// A token is good for one import: once a buffer has been taken, its token
/// yields nothing, whichever import is tried, and every other buffer is still
/// parked.
pub proof fn law_token_is_good_once<S>(
    parked: Map<u64, Parked<S>>,
    token: u64,
    shared: bool,
    again: bool,
    other: u64,
)
    requires
        taken(parked, token, shared).0 is Some,
        other != token,
    ensures
        taken(taken(parked, token, shared).1, token, again).0 is None,
        taken(taken(parked, token, shared).1, other, again).0 == taken(parked, other, again).0,
{
}

/// An import of the wrong kind yields nothing and costs nothing: the right one
/// still works after it.
pub proof fn law_crossed_import_keeps_the_buffer<S>(
    parked: Map<u64, Parked<S>>,
    token: u64,
    shared: bool,
)
    requires
        taken(parked, token, shared).0 is Some,
    ensures
        taken(parked, token, !shared).0 is None,
        taken(taken(parked, token, !shared).1, token, shared) == taken(parked, token, shared),
{
}

/// What is taken is the very buffer that was parked under the token, as long as it is
/// asked for as what it is; a token that nothing is parked under yields nothing.
pub proof fn law_parked_buffer_is_taken<S>(
    parked: Map<u64, Parked<S>>,
    token: u64,
    store: S,
    shared: bool,
    other: u64,
)
    requires
        !parked.contains_key(token),
    ensures
        taken(parked.insert(token, Parked { store, shared }), token, shared).0 == Some(store),
        taken(parked.insert(token, Parked { store, shared }), token, shared).1 == parked,
        !parked.contains_key(other) ==> taken(parked, other, shared) == (None::<S>, parked),
{
    assert(parked.insert(token, Parked { store, shared }).remove(token) =~= parked);
}

} // verus!
