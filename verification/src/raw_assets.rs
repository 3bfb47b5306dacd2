//! The store of raw asset bytes, indexed by key.

use vstd::prelude::*;
use crate::error::Error;
use crate::format::Deserialize;
use crate::key_list::with_keys;
use crate::source::{normal_of, normalize};
use crate::text::{chars_of, contains, ends_with, has_substring, has_suffix, occurs_at};

verus! {

/// One stored asset.
#[derive(Debug)]
struct Entry {
    key: String,
    bytes: Vec<u8>,
}

/// The raw bytes of a set of assets, each under its key.
///
/// Keys are compared by their normal form, and an asset is stored under the
/// normal form of its key. A key is stored at most once. The entries keep
/// the order in which their keys were first inserted.
#[derive(Debug)]
pub struct RawAssets {
    entries: Vec<Entry>,
}

/// The probe that stands for `path` when no stored key equals it: a trailing
/// `.jpeg` or `.jpg` is cut back to `.jp`, anything else is kept.
pub open spec fn probe_of(path: Seq<char>) -> Seq<char> {
    if has_suffix(path, ".jpeg"@) {
        path.subrange(0, path.len() - 2)
    } else if has_suffix(path, ".jpg"@) {
        path.subrange(0, path.len() - 1)
    } else {
        path
    }
}

/// `at` is the position of the stored key that a request for `path` resolves
/// to: the key equal to `path` if there is one, else the first key that
/// contains the probe of `path`.
pub open spec fn resolves_to(keys: Seq<Seq<char>>, path: Seq<char>, at: int) -> bool {
    &&& 0 <= at < keys.len()
    &&& if keys.contains(path) {
        keys[at] == path
    } else {
        &&& has_substring(keys[at], probe_of(path))
        &&& forall|earlier: int| 0 <= earlier < at ==> !has_substring(keys[earlier], probe_of(path))
    }
}

/// No stored key equals `path` or contains its probe.
pub open spec fn unresolved(keys: Seq<Seq<char>>, path: Seq<char>) -> bool {
    &&& !keys.contains(path)
    &&& forall|at: int| 0 <= at < keys.len() ==> !has_substring(keys[at], probe_of(path))
}

/// The position of the stored key that a request for `path` resolves to, or
/// `None` if it resolves to no key.
pub open spec fn resolution(keys: Seq<Seq<char>>, path: Seq<char>) -> Option<int> {
    if exists|at: int| resolves_to(keys, path, at) {
        Some(choose|at: int| resolves_to(keys, path, at))
    } else {
        None
    }
}

/// Among keys without duplicates a request resolves to one position at most,
/// and `resolution` gives it.
pub proof fn lemma_resolution_found(keys: Seq<Seq<char>>, path: Seq<char>, at: int)
    requires
        keys.no_duplicates(),
        resolves_to(keys, path, at),
    ensures
        resolution(keys, path) == Some(at),
{
    let chosen = choose|at: int| resolves_to(keys, path, at);
    assert(resolves_to(keys, path, chosen));
    if !keys.contains(path) {
        if chosen < at {
            assert(!has_substring(keys[chosen], probe_of(path)));
        }
        if at < chosen {
            assert(!has_substring(keys[at], probe_of(path)));
        }
    }
}

/// A request that no key matches has no resolution.
pub proof fn lemma_resolution_none(keys: Seq<Seq<char>>, path: Seq<char>)
    requires
        unresolved(keys, path),
    ensures
        resolution(keys, path) is None,
{
    assert forall|at: int| !resolves_to(keys, path, at) by {
        if resolves_to(keys, path, at) {
            assert(has_substring(keys[at], probe_of(path)));
        }
    }
}

/// A request for a `.jpg` finds what is stored as `.jpeg`, and a request
/// for a `.jpeg` what is stored as `.jpg`: where the store holds one key,
/// `stem` with the one extension, a request for `stem` with the other
/// resolves to it.
pub proof fn law_jpg_and_jpeg_are_aliases(stem: Seq<char>)
    ensures
        resolution(seq![stem + ".jpeg"@], stem + ".jpg"@) == Some(0int),
        resolution(seq![stem + ".jpg"@], stem + ".jpeg"@) == Some(0int),
{
    reveal_strlit(".jpg");
    reveal_strlit(".jpeg");
    let short = stem + ".jpg"@;
    let long = stem + ".jpeg"@;
    let cut = stem + seq!['.', 'j', 'p'];
    assert(long.subrange(long.len() - 5, long.len() as int) =~= ".jpeg"@);
    assert(short.subrange(short.len() - 4, short.len() as int) =~= ".jpg"@);
    assert(!has_suffix(short, ".jpeg"@)) by {
        if has_suffix(short, ".jpeg"@) {
            let end = short.subrange(short.len() - 5, short.len() as int);
            assert(end[2] == short[short.len() - 3]);
        }
    }
    assert(long.subrange(0, long.len() - 2) =~= cut);
    assert(short.subrange(0, short.len() - 1) =~= cut);
    assert(probe_of(long) == cut);
    assert(probe_of(short) == cut);
    assert(long.subrange(0, cut.len() as int) =~= cut);
    assert(short.subrange(0, cut.len() as int) =~= cut);
    assert(occurs_at(long, cut, 0));
    assert(occurs_at(short, cut, 0));
    assert(!seq![long].contains(short)) by {
        if seq![long].contains(short) {
            let at = seq![long].index_of(short);
            assert(seq![long][at].len() == short.len());
        }
    }
    assert(!seq![short].contains(long)) by {
        if seq![short].contains(long) {
            let at = seq![short].index_of(long);
            assert(seq![short][at].len() == long.len());
        }
    }
    assert(seq![long].no_duplicates());
    assert(seq![short].no_duplicates());
    assert(resolves_to(seq![long], short, 0));
    assert(resolves_to(seq![short], long, 0));
    lemma_resolution_found(seq![long], short, 0);
    lemma_resolution_found(seq![short], long, 0);
}

/// The probe of `path` as text.
pub fn probe(path: &str) -> (probe: &str)
    ensures
        probe@ == probe_of(path@),
{
    let chars = chars_of(path);
    let jpeg = chars_of(".jpeg");
    let jpg = chars_of(".jpg");
    proof {
        reveal_strlit(".jpeg");
        reveal_strlit(".jpg");
    }
    if ends_with(&chars, &jpeg) {
        path.substring_char(0, chars.len() - 2)
    } else if ends_with(&chars, &jpg) {
        path.substring_char(0, chars.len() - 1)
    } else {
        path
    }
}

/// The map that sends each of `keys` to the byte sequence at its position.
pub open spec fn map_of(keys: Seq<Seq<char>>, blobs: Seq<Seq<u8>>) -> Map<Seq<char>, Seq<u8>> {
    Map::new(|key: Seq<char>| keys.contains(key), |key: Seq<char>| blobs[keys.index_of(key)])
}

/// In a sequence without duplicates, a key is found where it stands.
pub proof fn lemma_index_of_key(keys: Seq<Seq<char>>, at: int)
    requires
        keys.no_duplicates(),
        0 <= at < keys.len(),
    ensures
        keys.index_of(keys[at]) == at,
{
    let found = keys.index_of(keys[at]);
    assert(0 <= found < keys.len() && keys[found] == keys[at]);
}

/// Inserting the entry at position `n` of a second store extends the merge
/// of its first `n` entries to the merge of its first `n + 1`.
proof fn lemma_merge_step(
    map: Map<Seq<char>, Seq<u8>>,
    keys: Seq<Seq<char>>,
    blobs: Seq<Seq<u8>>,
    n: int,
)
    requires
        0 <= n < keys.len(),
        keys.len() == blobs.len(),
        keys.no_duplicates(),
    ensures
        map.union_prefer_right(map_of(keys.take(n), blobs.take(n))).insert(keys[n], blobs[n])
            == map.union_prefer_right(map_of(keys.take(n + 1), blobs.take(n + 1))),
{
    let short = keys.take(n);
    let long = keys.take(n + 1);
    assert(!short.contains(keys[n])) by {
        if short.contains(keys[n]) {
            let at = short.index_of(keys[n]);
            assert(keys[at] == keys[n]);
        }
    }
    let left = map.union_prefer_right(map_of(short, blobs.take(n))).insert(keys[n], blobs[n]);
    let right = map.union_prefer_right(map_of(long, blobs.take(n + 1)));
    assert forall|key: Seq<char>| left.contains_key(key) == right.contains_key(key) by {
        if short.contains(key) {
            let at = short.index_of(key);
            assert(long[at] == key);
        }
        if long.contains(key) && key != keys[n] {
            let at = long.index_of(key);
            assert(short[at] == key);
        }
        if key == keys[n] {
            assert(long[n] == key);
        }
    }
    assert forall|key: Seq<char>| #[trigger] left.contains_key(key) implies left[key] == right[key] by {
        if key == keys[n] {
            assert(long[n] == key);
            lemma_index_of_key(long, n);
        } else if short.contains(key) {
            let at = short.index_of(key);
            assert(long[at] == key);
            lemma_index_of_key(short, at);
            lemma_index_of_key(long, at);
        } else {
            assert(!long.contains(key)) by {
                if long.contains(key) {
                    let at = long.index_of(key);
                    assert(short[at] == key);
                }
            }
        }
    }
    assert(left =~= right);
}

impl RawAssets {
    /// The stored keys, in the order of their first insertion.
    pub closed spec fn keys(&self) -> Seq<Seq<char>> {
        Seq::new(self.entries@.len(), |i: int| self.entries@[i].key@)
    }

    /// The stored byte sequences, each at the position of its key.
    pub closed spec fn blobs(&self) -> Seq<Seq<u8>> {
        Seq::new(self.entries@.len(), |i: int| self.entries@[i].bytes@)
    }

    /// Every key is stored once.
    pub open spec fn wf(&self) -> bool {
        &&& self.keys().len() == self.blobs().len()
        &&& self.keys().no_duplicates()
    }

    /// The store as a map from keys to bytes.
    pub open spec fn view(&self) -> Map<Seq<char>, Seq<u8>> {
        map_of(self.keys(), self.blobs())
    }

    /// The number of stored assets fits a `usize`.
    pub proof fn lemma_count_fits(self)
        ensures
            self.keys().len() <= usize::MAX,
    {
        vstd::std_specs::vec::axiom_spec_len(&self.entries);
    }

    /// Constructs an empty store.
    pub fn new() -> (assets: Self)
        ensures
            assets.wf(),
            assets.keys() == Seq::<Seq<char>>::empty(),
            assets.blobs() == Seq::<Seq<u8>>::empty(),
            assets@ == Map::<Seq<char>, Seq<u8>>::empty(),
    {
        let assets = RawAssets { entries: Vec::new() };
        proof {
            assert(assets.keys() =~= Seq::<Seq<char>>::empty());
            assert(assets.blobs() =~= Seq::<Seq<u8>>::empty());
            assert(assets@ =~= Map::<Seq<char>, Seq<u8>>::empty());
        }
        assets
    }

    /// The number of stored assets.
    pub fn len(&self) -> (n: usize)
        ensures
            n == self.keys().len(),
    {
        self.entries.len()
    }

    /// Decides whether the key with the normal form of `path` is stored.
    pub fn contains_key(&self, path: &str) -> (stored: bool)
        requires
            self.wf(),
        ensures
            stored == self.keys().contains(normal_of(path@)),
            stored == self@.contains_key(normal_of(path@)),
    {
        let key = normalize(path);
        self.position_of(&key).is_some()
    }

    /// Stores `bytes` under `key`, as `insert` does.
    fn put(&mut self, key: String, bytes: Vec<u8>)
        requires
            old(self).wf(),
        ensures
            final(self).wf(),
            final(self)@ == old(self)@.insert(key@, bytes@),
            final(self).keys() == if old(self).keys().contains(key@) {
                old(self).keys()
            } else {
                old(self).keys().push(key@)
            },
    {
        let ghost before = *self;
        let ghost path = key@;
        match self.position_of(&key) {
            Some(at) => {
                self.entries.set(at, Entry { key, bytes });
                proof {
                    assert(self.keys() =~= before.keys());
                    assert(self.blobs() =~= before.blobs().update(at as int, bytes@));
                    lemma_index_of_key(self.keys(), at as int);
                    assert(self@ =~= before@.insert(path, bytes@));
                }
            },
            None => {
                self.entries.push(Entry { key, bytes });
                proof {
                    assert(self.keys() =~= before.keys().push(path));
                    assert(self.blobs() =~= before.blobs().push(bytes@));
                    let after = before@.insert(path, bytes@);
                    assert forall|key: Seq<char>| self@.contains_key(key) == after.contains_key(
                        key,
                    ) by {
                        if before.keys().contains(key) {
                            let at = before.keys().index_of(key);
                            assert(self.keys()[at] == key);
                        }
                        if key == path {
                            assert(self.keys()[before.keys().len() as int] == key);
                        }
                    }
                    assert forall|key: Seq<char>| #[trigger]
                        self@.contains_key(key) implies self@[key] == after[key] by {
                        let at = self.keys().index_of(key);
                        lemma_index_of_key(self.keys(), at);
                        if at < before.keys().len() {
                            lemma_index_of_key(before.keys(), at);
                        }
                    }
                    assert(self@ =~= before@.insert(path, bytes@));
                }
            },
        }
    }

    /// Stores `bytes` under the normal form of `path`. A key that is already
    /// stored keeps its position and gets the new bytes; a new key goes to
    /// the end.
    pub fn insert(&mut self, path: &str, bytes: Vec<u8>)
        requires
            old(self).wf(),
        ensures
            final(self).wf(),
            final(self)@ == old(self)@.insert(normal_of(path@), bytes@),
            final(self).keys() == if old(self).keys().contains(normal_of(path@)) {
                old(self).keys()
            } else {
                old(self).keys().push(normal_of(path@))
            },
    {
        self.put(normalize(path), bytes);
    }

    /// Moves every asset of `other` into this store, in the order of
    /// `other`: an asset whose key is stored already replaces the bytes
    /// under that key, the others go to the end.
    pub fn extend(&mut self, other: RawAssets) -> (merged: &mut Self)
        requires
            old(self).wf(),
            other.wf(),
        ensures
            merged.wf(),
            merged@ == old(self)@.union_prefer_right(other@),
            merged.keys() == with_keys(old(self).keys(), other.keys()),
            *final(self) == *final(merged),
    {
        let ghost before = *self;
        let ghost keys = other.keys();
        let ghost blobs = other.blobs();
        proof {
            assert(keys.take(0) =~= Seq::<Seq<char>>::empty());
            assert(before@.union_prefer_right(map_of(keys.take(0), blobs.take(0))) =~= before@);
        }
        for entry in it: other.entries
            invariant
                self.wf(),
                keys.no_duplicates(),
                keys.len() == blobs.len() == it.seq().len(),
                forall|i: int| 0 <= i < it.seq().len() ==> it.seq()[i].key@ == keys[i],
                forall|i: int| 0 <= i < it.seq().len() ==> it.seq()[i].bytes@ == blobs[i],
                self@ == before@.union_prefer_right(
                    map_of(keys.take(it.index() as int), blobs.take(it.index() as int)),
                ),
                self.keys() == with_keys(before.keys(), keys.take(it.index() as int)),
        {
            let ghost n = it.index() as int;
            proof {
                lemma_merge_step(before@, keys, blobs, n);
                assert(keys.take(n + 1).drop_last() =~= keys.take(n));
            }
            self.put(entry.key, entry.bytes);
        }
        proof {
            assert(keys.take(keys.len() as int) =~= keys);
            assert(blobs.take(blobs.len() as int) =~= blobs);
        }
        self
    }

    /// The key stored at position `at`.
    pub fn key_at(&self, at: usize) -> (key: &str)
        requires
            at < self.keys().len(),
        ensures
            key@ == self.keys()[at as int],
    {
        self.entries[at].key.as_str()
    }

    /// The bytes stored at position `at`.
    pub fn bytes_at(&self, at: usize) -> (bytes: &[u8])
        requires
            at < self.keys().len(),
        ensures
            bytes@ == self.blobs()[at as int],
    {
        self.entries[at].bytes.as_slice()
    }

    /// The position that a request for `path` resolves to, or the failure to
    /// resolve it.
    fn resolve(&self, path: &str) -> (found: Result<usize, Error>)
        requires
            self.wf(),
        ensures
            match found {
                Ok(at) => resolution(self.keys(), normal_of(path@)) == Some(at as int) && at
                    < self.keys().len(),
                Err(e) => resolution(self.keys(), normal_of(path@)) is None && e.is_not_loaded(path@),
            },
    {
        let key = normalize(path);
        let ghost asked = key@;
        if let Some(at) = self.position_of(&key) {
            proof {
                lemma_resolution_found(self.keys(), asked, at as int);
            }
            return Ok(at);
        }
        let wanted = probe(key.as_str());
        let part = chars_of(wanted);
        let mut i: usize = 0;
        while i < self.entries.len()
            invariant
                i <= self.entries.len(),
                part@ == probe_of(asked),
                asked == normal_of(path@),
                self.wf(),
                !self.keys().contains(asked),
                forall|k: int| 0 <= k < i ==> !has_substring(self.keys()[k], probe_of(asked)),
            decreases self.entries.len() - i,
        {
            let text = chars_of(self.entries[i].key.as_str());
            if contains(&text, &part) {
                proof {
                    lemma_resolution_found(self.keys(), asked, i as int);
                }
                return Ok(i);
            }
            i += 1;
        }
        proof {
            lemma_resolution_none(self.keys(), asked);
        }
        Err(Error::NotLoaded(String::from_str(path)))
    }

    /// The stored key that a request for `path` resolves to: the normal form
    /// of `path` if it is stored, else the first stored key that contains
    /// the probe of that normal form. Fails with `NotLoaded` and `path` if
    /// there is none.
    pub fn match_path(&self, path: &str) -> (found: Result<String, Error>)
        requires
            self.wf(),
        ensures
            match found {
                Ok(key) => resolution(self.keys(), normal_of(path@)) matches Some(at) && key@
                    == self.keys()[at],
                Err(e) => resolution(self.keys(), normal_of(path@)) is None && e.is_not_loaded(path@),
            },
    {
        match self.resolve(path) {
            Ok(at) => Ok(self.entries[at].key.clone()),
            Err(e) => Err(e),
        }
    }

    /// The bytes of the asset that a request for `path` resolves to. Fails
    /// with `NotLoaded` and `path` if no stored key matches.
    pub fn get(&self, path: &str) -> (found: Result<&[u8], Error>)
        requires
            self.wf(),
        ensures
            match found {
                Ok(bytes) => resolution(self.keys(), normal_of(path@)) matches Some(at) && bytes@
                    == self.blobs()[at],
                Err(e) => resolution(self.keys(), normal_of(path@)) is None && e.is_not_loaded(path@),
            },
    {
        match self.resolve(path) {
            Ok(at) => Ok(self.entries[at].bytes.as_slice()),
            Err(e) => Err(e),
        }
    }

    /// Takes the asset that a request for `path` resolves to out of the
    /// store and returns its bytes; the other entries keep their order.
    /// Fails with `NotLoaded` and `path` if no stored key matches, and
    /// then leaves the store as it was.
    pub fn remove(&mut self, path: &str) -> (found: Result<Vec<u8>, Error>)
        requires
            old(self).wf(),
        ensures
            final(self).wf(),
            match found {
                Ok(bytes) => {
                    &&& resolution(old(self).keys(), normal_of(path@)) matches Some(at)
                    &&& bytes@ == old(self).blobs()[at]
                    &&& final(self).keys() == old(self).keys().remove(at)
                    &&& final(self).blobs() == old(self).blobs().remove(at)
                    &&& final(self)@ == old(self)@.remove(old(self).keys()[at])
                },
                Err(e) => {
                    &&& resolution(old(self).keys(), normal_of(path@)) is None
                    &&& e.is_not_loaded(path@)
                    &&& final(self).keys() == old(self).keys()
                    &&& final(self).blobs() == old(self).blobs()
                },
            },
    {
        let ghost before = *self;
        match self.resolve(path) {
            Ok(at) => {
                let entry = self.entries.remove(at);
                proof {
                    let i = at as int;
                    assert(self.keys() =~= before.keys().remove(i));
                    assert(self.blobs() =~= before.blobs().remove(i));
                    before.keys().remove_ensures(i);
                    assert(self.keys().no_duplicates()) by {
                        assert forall|a: int, b: int|
                            0 <= a < self.keys().len() && 0 <= b < self.keys().len() && a
                                != b implies self.keys()[a] != self.keys()[b] by {
                            let a0 = if a < i { a } else { a + 1 };
                            let b0 = if b < i { b } else { b + 1 };
                            assert(before.keys()[a0] != before.keys()[b0]);
                        }
                    }
                    let gone = before.keys()[i];
                    let after = before@.remove(gone);
                    assert forall|key: Seq<char>| self@.contains_key(key) == after.contains_key(
                        key,
                    ) by {
                        if self.keys().contains(key) {
                            let a = self.keys().index_of(key);
                            let a0 = if a < i { a } else { a + 1 };
                            assert(before.keys()[a0] == key);
                        }
                        if before.keys().contains(key) && key != gone {
                            let a0 = before.keys().index_of(key);
                            let a = if a0 < i { a0 } else { a0 - 1 };
                            assert(self.keys()[a] == key);
                        }
                    }
                    assert forall|key: Seq<char>| #[trigger]
                        self@.contains_key(key) implies self@[key] == after[key] by {
                        let a = self.keys().index_of(key);
                        let a0 = if a < i { a } else { a + 1 };
                        lemma_index_of_key(self.keys(), a);
                        lemma_index_of_key(before.keys(), a0);
                    }
                    assert(self@ =~= after);
                }
                Ok(entry.bytes)
            },
            Err(e) => Err(e),
        }
    }

    /// Decides whether the store is empty.
    pub fn is_empty(&self) -> (empty: bool)
        ensures
            empty == (self.keys().len() == 0),
    {
        self.entries.len() == 0
    }

    /// Every stored key with its bytes, in the order of the store.
    pub fn iter(&self) -> (items: Vec<(&str, &[u8])>)
        ensures
            items@.len() == self.keys().len(),
            forall|i: int|
                0 <= i < items@.len() ==> (#[trigger] items@[i]).0@ == self.keys()[i]
                    && items@[i].1@ == self.blobs()[i],
    {
        let mut items: Vec<(&str, &[u8])> = Vec::new();
        let mut i: usize = 0;
        while i < self.entries.len()
            invariant
                i <= self.entries.len(),
                items@.len() == i,
                forall|k: int|
                    0 <= k < i ==> (#[trigger] items@[k]).0@ == self.keys()[k] && items@[k].1@
                        == self.blobs()[k],
            decreases self.entries.len() - i,
        {
            items.push((self.entries[i].key.as_str(), self.entries[i].bytes.as_slice()));
            i += 1;
        }
        items
    }

    /// Decodes the asset that `path` names into a `T`, as `T` defines it.
    pub fn deserialize<T: Deserialize>(&mut self, path: &str) -> (decoded: Result<T, Error>)
        requires
            old(self).wf(),
        ensures
            final(self).wf(),
            T::decodes(path@, *old(self), *final(self), decoded),
    {
        T::deserialize(path, self)
    }

    /// The position of the key equal to `path`, if it is stored.
    fn position_of(&self, path: &String) -> (found: Option<usize>)
        ensures
            match found {
                Some(at) => at < self.keys().len() && self.keys()[at as int] == path@,
                None => !self.keys().contains(path@),
            },
    {
        let mut i: usize = 0;
        while i < self.entries.len()
            invariant
                i <= self.entries.len(),
                forall|k: int| 0 <= k < i ==> self.keys()[k] != path@,
            decreases self.entries.len() - i,
        {
            if self.entries[i].key == *path {
                return Some(i);
            }
            i += 1;
        }
        None
    }
}

impl Default for RawAssets {
    fn default() -> (assets: Self)
        ensures
            assets.wf(),
            assets.keys() == Seq::<Seq<char>>::empty(),
            assets.blobs() == Seq::<Seq<u8>>::empty(),
    {
        RawAssets::new()
    }
}

} // verus!
