//! The callback registry.
use crate::identity::{ahead, is_next_identity, next_identity};
use crate::model::{Slot, Stage};
use std::collections::HashMap;
use vstd::prelude::*;

verus! {

/// The callback registry: each pending callback under its identity, with the
/// stage it has reached. A callback is owned by the registry until it is
/// fired, which hands it out and forgets it.
pub struct CallbackRegistry<C> {
    callbacks: HashMap<usize, Slot<C>>,
}

impl<C> View for CallbackRegistry<C> {
    type V = Map<usize, Slot<C>>;

    closed spec fn view(&self) -> Map<usize, Slot<C>> {
        self.callbacks@
    }
}

impl<C> CallbackRegistry<C> {
    /// A registry with no callback.
    pub fn new() -> (r: CallbackRegistry<C>)
        ensures
            r@ == Map::<usize, Slot<C>>::empty(),
    {
        CallbackRegistry { callbacks: HashMap::new() }
    }

    /// The number of registered callbacks.
    pub fn len(&self) -> (n: usize)
        ensures
            n == self@.dom().len(),
            self@.dom().finite(),
    {
        broadcast use vstd::std_specs::hash::group_hash_axioms;

        self.callbacks.len()
    }

    /// Whether a callback is registered under `token`.
    pub fn contains(&self, token: usize) -> (b: bool)
        ensures
            b == self@.contains_key(token),
    {
        broadcast use vstd::std_specs::hash::group_hash_axioms;

        self.callbacks.contains_key(&token)
    }

    /// The stage of the callback registered under `token`, if there is one.
    pub fn stage(&self, token: usize) -> (s: Option<Stage>)
        ensures
            s == (if self@.contains_key(token) {
                Some(self@[token].stage)
            } else {
                None
            }),
    {
        broadcast use vstd::std_specs::hash::group_hash_axioms;

        match self.callbacks.get(&token) {
            Some(slot) => Some(slot.stage),
            None => None,
        }
    }

    /// The identity that a counter standing at `counter` hands out next: the
    /// first value it comes to that is neither 0 nor registered.
    pub fn next_identity(&self, counter: usize) -> (token: usize)
        requires
            self@.dom().len() < usize::MAX,
        ensures
            is_next_identity(counter, self@.dom(), token),
            ahead(counter, token) <= self@.dom().len() + 2,
    {
        next_identity(counter, &self.callbacks)
    }

    /// Stores `cb` under `token`, at `stage`.
    pub fn register(&mut self, token: usize, cb: C, stage: Stage)
        requires
            !old(self)@.contains_key(token),
        ensures
            final(self)@ == old(self)@.insert(token, Slot { callback: cb, stage }),
    {
        broadcast use vstd::std_specs::hash::group_hash_axioms;

        self.callbacks.insert(token, Slot { callback: cb, stage });
    }

    /// Moves the callback registered under `token` to another stage.
    pub fn restage(&mut self, token: usize, stage: Stage)
        requires
            old(self)@.contains_key(token),
        ensures
            final(self)@ == old(self)@.insert(
                token,
                Slot { callback: old(self)@[token].callback, stage },
            ),
    {
        broadcast use vstd::std_specs::hash::group_hash_axioms;

        let ghost before = self@;
        let slot = self.callbacks.remove(&token).unwrap();
        self.callbacks.insert(token, Slot { callback: slot.callback, stage });
        assert(self@ =~= before.insert(token, Slot { callback: before[token].callback, stage }));
    }

    /// Takes the callback registered under `token` out of the registry and
    /// hands it out, with its stage, for the caller to run.
    pub fn fire(&mut self, token: usize) -> (slot: Slot<C>)
        requires
            old(self)@.contains_key(token),
        ensures
            final(self)@ == old(self)@.remove(token),
            slot == old(self)@[token],
    {
        broadcast use vstd::std_specs::hash::group_hash_axioms;

        self.callbacks.remove(&token).unwrap()
    }
}

} // verus!
