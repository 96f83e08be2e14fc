//! Wrappers that put a mirror or a local cache in front of a store.

use crate::mirror::MirroringObjectStore;
use vstd::prelude::*;

verus! {

/// Wraps a store so that its writes are mirrored to a secondary store.
#[derive(Debug)]
pub struct MirroringObjectStoreWrapper<S> {
    pub secondary: S,
}

impl<S> MirroringObjectStoreWrapper<S> {
    /// A wrapper that mirrors to the secondary store.
    pub fn new(secondary: S) -> (wrapper: Self)
        ensures
            wrapper == (MirroringObjectStoreWrapper { secondary }),
    {
        MirroringObjectStoreWrapper { secondary }
    }
}

impl<S: Clone> MirroringObjectStoreWrapper<S> {
    /// The primary store, mirrored to a clone of the secondary one.
    pub fn wrap(&self, _store_prefix: &str, primary: S) -> (store: MirroringObjectStore<S>)
        ensures
            store@.primary == primary,
            cloned(self.secondary, store@.secondary),
    {
        MirroringObjectStore::new(primary, self.secondary.clone())
    }
}

/// Wraps a store by standing in its place: the cached store already holds the backing store.
///
/// `H` is the handle of the cached store.
#[derive(Debug)]
pub struct LocalCacheObjectStoreWrapper<H> {
    pub store: H,
}

impl<H> LocalCacheObjectStoreWrapper<H> {
    /// A wrapper that hands out the cached store.
    pub fn new(store: H) -> (wrapper: Self)
        ensures
            wrapper == (LocalCacheObjectStoreWrapper { store }),
    {
        LocalCacheObjectStoreWrapper { store }
    }
}

impl<H: Clone> LocalCacheObjectStoreWrapper<H> {
    /// A clone of the cached store, whatever the store that was to be wrapped.
    pub fn wrap<S>(&self, _store_prefix: &str, _primary: S) -> (store: H)
        ensures
            cloned(self.store, store),
    {
        self.store.clone()
    }
}

} // verus!
