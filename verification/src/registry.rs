//! The live subscriptions of a service, by key.

use std::collections::BTreeMap;
use vstd::prelude::*;

verus! {

/// The subscriptions that are still live, each under the key it was given.
/// The registry owns the handle of a subscription from the moment it is
/// inserted until it is dropped from the registry.
pub struct SubscriptionRegistry<H> {
    subscriptions: BTreeMap<i32, H>,
}

impl<H> View for SubscriptionRegistry<H> {
    type V = Map<i32, H>;

    closed spec fn view(&self) -> Map<i32, H> {
        self.subscriptions@
    }
}

impl<H> SubscriptionRegistry<H> {
    /// A registry without subscriptions.
    pub fn new() -> (registry: Self)
        ensures
            registry@ == Map::<i32, H>::empty(),
    {
        SubscriptionRegistry { subscriptions: BTreeMap::new() }
    }

    /// Puts `subscription` under `key`. A subscription that was under the key
    /// before leaves the registry and is returned.
    pub fn insert(&mut self, key: i32, subscription: H) -> (replaced: Option<H>)
        ensures
            final(self)@ == old(self)@.insert(key, subscription),
            match replaced {
                Some(h) => old(self)@.contains_key(key) && h == old(self)@[key],
                None => !old(self)@.contains_key(key),
            },
    {
        self.subscriptions.insert(key, subscription)
    }

    /// Drops the subscription under `key`, if there is one, and says whether
    /// there was one. Dropping twice, or dropping a key that was never
    /// inserted, changes nothing.
    pub fn drop_subscription(&mut self, key: i32) -> (found: bool)
        ensures
            final(self)@ == old(self)@.remove(key),
            found == old(self)@.contains_key(key),
    {
        let removed = self.subscriptions.remove(&key);
        removed.is_some()
    }

    /// Whether a subscription is live under `key`.
    pub fn contains(&self, key: i32) -> (live: bool)
        ensures
            live == self@.contains_key(key),
    {
        self.subscriptions.contains_key(&key)
    }

    /// The handle of the subscription under `key`.
    pub fn get(&self, key: i32) -> (handle: Option<&H>)
        ensures
            match handle {
                Some(h) => self@.contains_key(key) && *h == self@[key],
                None => !self@.contains_key(key),
            },
    {
        self.subscriptions.get(&key)
    }

    /// The number of live subscriptions.
    pub fn len(&self) -> (n: usize)
        ensures
            n == self@.len(),
            self@.dom().finite(),
    {
        self.subscriptions.len()
    }

    /// Whether no subscription is live.
    pub fn is_empty(&self) -> (empty: bool)
        ensures
            empty == (self@ == Map::<i32, H>::empty()),
    {
        let empty = self.subscriptions.is_empty();
        assert(self@.is_empty() ==> self@ =~= Map::<i32, H>::empty());
        empty
    }
}

} // verus!
