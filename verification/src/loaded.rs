//! The set of loaded resources, under the names of the earlier interface.

use vstd::prelude::*;
use crate::error::Error;
use crate::format::Deserialize;
use crate::raw_assets::{resolution, RawAssets};
use crate::source::normal_of;

verus! {

/// The resources that were loaded or inserted by hand, each under its path.
/// It holds what a [`RawAssets`] holds and resolves paths as it does.
#[derive(Debug)]
pub struct Loaded {
    loaded: RawAssets,
}

impl Loaded {
    /// The store behind this set.
    pub closed spec fn assets(&self) -> RawAssets {
        self.loaded
    }

    /// The stored paths, in the order of their first insertion.
    pub open spec fn keys(&self) -> Seq<Seq<char>> {
        self.assets().keys()
    }

    /// The stored byte sequences, each at the position of its path.
    pub open spec fn blobs(&self) -> Seq<Seq<u8>> {
        self.assets().blobs()
    }

    /// Every path is stored once.
    pub open spec fn wf(&self) -> bool {
        self.assets().wf()
    }

    /// The set as a map from paths to bytes.
    pub open spec fn view(&self) -> Map<Seq<char>, Seq<u8>> {
        self.assets()@
    }

    /// Constructs an empty set of loaded resources.
    pub fn new() -> (loaded: Self)
        ensures
            loaded.wf(),
            loaded.keys() == Seq::<Seq<char>>::empty(),
            loaded.blobs() == Seq::<Seq<u8>>::empty(),
    {
        Loaded { loaded: RawAssets::new() }
    }

    /// Takes the resource that `path` resolves to out of the set and
    /// returns its bytes. Fails with `NotLoaded` and `path` if no stored
    /// path matches, and then leaves the set as it was.
    pub fn remove_bytes(&mut self, path: &str) -> (found: Result<Vec<u8>, Error>)
        requires
            old(self).wf(),
        ensures
            final(self).wf(),
            match found {
                Ok(bytes) => {
                    &&& resolution(old(self).keys(), normal_of(path@)) matches Some(at)
                    &&& bytes@ == old(self).blobs()[at]
                    &&& final(self).keys() == old(self).keys().remove(at)
                    &&& final(self).blobs() == old(self).blobs().remove(at)
                },
                Err(e) => {
                    &&& resolution(old(self).keys(), normal_of(path@)) is None
                    &&& e.is_not_loaded(path@)
                    &&& final(self).keys() == old(self).keys()
                    &&& final(self).blobs() == old(self).blobs()
                },
            },
    {
        self.loaded.remove(path)
    }

    /// The bytes of the resource that `path` resolves to. Fails with
    /// `NotLoaded` and `path` if no stored path matches.
    pub fn get_bytes(&self, path: &str) -> (found: Result<&[u8], Error>)
        requires
            self.wf(),
        ensures
            match found {
                Ok(bytes) => resolution(self.keys(), normal_of(path@)) matches Some(at) && bytes@
                    == self.blobs()[at],
                Err(e) => resolution(self.keys(), normal_of(path@)) is None && e.is_not_loaded(path@),
            },
    {
        self.loaded.get(path)
    }

    /// Stores `bytes` under `path`, replacing what was stored there.
    pub fn insert_bytes(&mut self, path: &str, bytes: Vec<u8>)
        requires
            old(self).wf(),
        ensures
            final(self).wf(),
            final(self)@ == old(self)@.insert(normal_of(path@), bytes@),
            final(self).keys() == if old(self).keys().contains(normal_of(path@)) {
                old(self).keys()
            } else {
                old(self).keys().push(normal_of(path@))
            },
    {
        self.loaded.insert(path, bytes);
    }

    /// Decodes the resource that `path` names into a `T`, as `T` defines it.
    pub fn deserialize<T: Deserialize>(&mut self, path: &str) -> (decoded: Result<T, Error>)
        requires
            old(self).wf(),
        ensures
            final(self).wf(),
            T::decodes(path@, old(self).assets(), final(self).assets(), decoded),
    {
        self.loaded.deserialize::<T>(path)
    }

    /// Every stored path with its bytes, in the order of the set.
    pub fn iter(&self) -> (items: Vec<(&str, &[u8])>)
        ensures
            items@.len() == self.keys().len(),
            forall|i: int|
                0 <= i < items@.len() ==> (#[trigger] items@[i]).0@ == self.keys()[i]
                    && items@[i].1@ == self.blobs()[i],
    {
        self.loaded.iter()
    }
}

impl Default for Loaded {
    fn default() -> (loaded: Self)
        ensures
            loaded.wf(),
            loaded.keys() == Seq::<Seq<char>>::empty(),
    {
        Loaded::new()
    }
}

} // verus!
