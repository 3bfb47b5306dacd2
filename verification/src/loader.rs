//! The rounds of a load operation.
//!
//! A load fetches a batch of keys, stores what came back, looks through the
//! new bytes for references to further assets, and fetches those that the
//! store does not hold yet, until nothing is missing. Fetching is left to
//! the caller; what is asked for, what is stored, and when the load is over,
//! is decided here.

use vstd::prelude::*;
use crate::data_url::{data_url_decoding, first_malformed, parse_data_urls, with_data_urls};
use crate::dependencies::{
    all_references, collect_references, lemma_all_references, lemma_all_references_are_normal,
    lemma_reference_has_holder, lemma_unknown, missing_references, references_of, unknown,
    unknown_keys,
};
use crate::error::Error;
use crate::key_list::{
    distinct, first_where, lemma_distinct, lemma_first_where, lemma_first_where_next,
    lemma_first_where_stays, lemma_with_keys, no_keys, push_new, texts, with_keys,
};
use crate::raw_assets::{lemma_index_of_key, RawAssets};
use crate::source::{
    is_normal, lemma_normal_is_normal, normal_of, normalize, normals, partition, LoadBatch,
};

verus! {

/// The position of the first key of `wanted` that is not among `present`.
pub open spec fn first_absent(wanted: Seq<Seq<char>>, present: Seq<Seq<char>>) -> Option<int> {
    first_where(wanted, |key: Seq<char>| !present.contains(key))
}

/// Where no key is absent, every key is present.
pub proof fn lemma_none_absent(wanted: Seq<Seq<char>>, present: Seq<Seq<char>>)
    requires
        first_absent(wanted, present) is None,
    ensures
        forall|key: Seq<char>| wanted.contains(key) ==> present.contains(key),
{
    lemma_first_where(wanted, |key: Seq<char>| !present.contains(key));
    assert forall|key: Seq<char>| wanted.contains(key) implies present.contains(key) by {
        let at = wanted.index_of(key);
        assert(wanted[at] == key);
    }
}

/// Every key that a stored asset refers to is stored or among `pending`.
pub open spec fn closed_but(
    keys: Seq<Seq<char>>,
    blobs: Seq<Seq<u8>>,
    pending: Seq<Seq<char>>,
) -> bool {
    forall|at: int, key: Seq<char>|
        0 <= at < keys.len() && #[trigger] references_of(keys[at], blobs[at]).contains(key)
            ==> keys.contains(key) || pending.contains(key)
}

/// What one round of fetching brought, or the failure that ends the load:
/// the failure of the network fetch if it failed, else that of the disk
/// fetch if it failed, else the assets of both, those from disk after those
/// from the network, followed by the decoded `data_urls`, each under its
/// normal form; the first malformed data URL fails the round.
pub fn assemble_round(
    data_urls: Vec<String>,
    url_assets: Result<RawAssets, Error>,
    disk_assets: Result<RawAssets, Error>,
) -> (round: Result<RawAssets, Error>)
    requires
        url_assets matches Ok(assets) ==> assets.wf(),
        disk_assets matches Ok(assets) ==> assets.wf(),
    ensures
        match round {
            Ok(assets) => {
                &&& assets.wf()
                &&& url_assets matches Ok(from_urls)
                &&& disk_assets matches Ok(from_disk)
                &&& first_malformed(texts(data_urls@)) is None
                &&& assets@ == with_data_urls(
                    from_urls@.union_prefer_right(from_disk@),
                    texts(data_urls@),
                )
                &&& assets.keys() == with_keys(
                    with_keys(from_urls.keys(), from_disk.keys()),
                    normals(texts(data_urls@)),
                )
            },
            Err(e) => match (url_assets, disk_assets) {
                (Err(failure), _) => e == failure,
                (Ok(_), Err(failure)) => e == failure,
                (Ok(_), Ok(_)) => {
                    &&& first_malformed(texts(data_urls@)) matches Some(at)
                    &&& data_url_decoding(texts(data_urls@)[at]) matches Err(cause)
                    &&& e.is_failed_parsing_data_url(texts(data_urls@)[at], cause)
                },
            },
        },
{
    let mut assets = match url_assets {
        Ok(assets) => assets,
        Err(failure) => {
            return Err(failure);
        },
    };
    let from_disk = match disk_assets {
        Ok(assets) => assets,
        Err(failure) => {
            return Err(failure);
        },
    };
    assets.extend(from_disk);
    match parse_data_urls(data_urls, &mut assets) {
        Ok(_) => Ok(assets),
        Err(failure) => Err(failure),
    }
}

/// A load operation between two rounds: the store so far, and the keys to
/// fetch next.
pub struct LoadState {
    store: RawAssets,
    pending: Vec<String>,
    rounds: usize,
    requested: Ghost<Seq<Seq<char>>>,
}

impl LoadState {
    /// The store so far.
    pub closed spec fn store(&self) -> RawAssets {
        self.store
    }

    /// The keys to fetch in the next round.
    pub closed spec fn pending(&self) -> Seq<Seq<char>> {
        texts(self.pending@)
    }

    /// The number of rounds with a batch that are over.
    pub closed spec fn rounds(&self) -> nat {
        self.rounds as nat
    }

    /// Every key that was in the batch of a round so far, the coming round
    /// included, in the order in which they were asked for.
    pub closed spec fn requested(&self) -> Seq<Seq<char>> {
        self.requested@
    }

    /// The store is well formed, the batch of the next round names keys in
    /// normal form, none twice and none that is stored, every reference of
    /// a stored asset is stored or in that batch, and no key was ever asked
    /// for twice.
    pub open spec fn wf(&self) -> bool {
        &&& self.store().wf()
        &&& self.pending().no_duplicates()
        &&& forall|key: Seq<char>| self.pending().contains(key) ==> is_normal(key)
        &&& forall|key: Seq<char>|
            self.pending().contains(key) ==> !self.store().keys().contains(key)
        &&& closed_but(self.store().keys(), self.store().blobs(), self.pending())
        &&& self.requested().no_duplicates()
        &&& forall|key: Seq<char>|
            self.requested().contains(key) ==> self.store().keys().contains(key)
                || self.pending().contains(key)
        &&& forall|key: Seq<char>| self.pending().contains(key) ==> self.requested().contains(key)
        &&& self.rounds() <= self.store().keys().len()
    }

    /// The load is over: nothing is left to fetch.
    pub open spec fn done(&self) -> bool {
        self.pending().len() == 0
    }

    /// `after` is the state that `before` turns into when the round that
    /// fetched `round` is over: every key of the batch was fetched, the
    /// round is merged into the store, and the next batch holds the keys
    /// that the fetched assets refer to and that are not stored by then.
    pub open spec fn advanced(before: LoadState, round: RawAssets, after: LoadState) -> bool {
        &&& first_absent(before.pending(), round.keys()) is None
        &&& after.store()@ == before.store()@.union_prefer_right(round@)
        &&& after.store().keys() == with_keys(before.store().keys(), round.keys())
        &&& after.pending() == missing_references(
            round.keys(),
            round.blobs(),
            after.store().keys(),
        )
        &&& after.rounds() == before.rounds() + if before.done() {
            0nat
        } else {
            1nat
        }
        &&& after.requested() == before.requested() + after.pending()
    }

    /// Two states hold the same store, the same batch and the same history.
    pub open spec fn agrees_with(&self, other: LoadState) -> bool {
        &&& self.store().keys() == other.store().keys()
        &&& self.store().blobs() == other.store().blobs()
        &&& self.pending() == other.pending()
        &&& self.rounds() == other.rounds()
        &&& self.requested() == other.requested()
    }

    /// Two states hold the same assets and ask for the same keys next, in
    /// whatever order.
    pub open spec fn same_content_as(&self, other: LoadState) -> bool {
        &&& self.store()@ == other.store()@
        &&& self.pending().to_set() == other.pending().to_set()
        &&& self.rounds() == other.rounds()
    }

    /// Starts a load of `paths`, each in its normal form, into an empty
    /// store.
    pub fn new(paths: &Vec<String>) -> (state: Self)
        ensures
            state.wf(),
            state.store().keys() == Seq::<Seq<char>>::empty(),
            state.pending() == distinct(normals(texts(paths@))),
            state.requested() == state.pending(),
            state.rounds() == 0,
    {
        let pending = distinct_keys(paths);
        proof {
            lemma_distinct(normals(texts(paths@)));
            lemma_distinct_normals(texts(paths@));
        }
        LoadState { store: RawAssets::new(), pending, rounds: 0, requested: Ghost(texts(pending@)) }
    }

    /// Starts a load of `paths` into `store`, which is kept: the first
    /// batch holds those of `paths`, and of the keys that the assets of
    /// `store` refer to, that `store` does not hold.
    pub fn resume(store: RawAssets, paths: &Vec<String>) -> (state: Self)
        requires
            store.wf(),
        ensures
            state.wf(),
            state.store() == store,
            state.pending() == unknown(
                with_keys(
                    distinct(normals(texts(paths@))),
                    all_references(store.keys(), store.blobs()),
                ),
                store.keys(),
            ),
            state.requested() == state.pending(),
            state.rounds() == 0,
    {
        let mut found = distinct_keys(paths);
        let ghost wanted = texts(found@);
        collect_references(&store, &mut found);
        let pending = unknown_keys(&found, &store);
        proof {
            let keys = store.keys();
            let blobs = store.blobs();
            let named = all_references(keys, blobs);
            lemma_distinct(normals(texts(paths@)));
            lemma_distinct_normals(texts(paths@));
            lemma_with_keys(wanted, named);
            lemma_unknown(texts(found@), keys);
            assert forall|key: Seq<char>| texts(found@).contains(key) implies is_normal(key) by {
                if !wanted.contains(key) {
                    lemma_all_references_are_normal(keys, blobs, key);
                }
            }
            assert forall|at: int, key: Seq<char>|
                0 <= at < keys.len() && #[trigger] references_of(keys[at], blobs[at]).contains(
                    key,
                ) implies keys.contains(key) || texts(pending@).contains(key) by {
                lemma_all_references(keys, blobs, at, key);
                assert(named.contains(key));
                assert(texts(found@).contains(key));
                assert(is_normal(key));
            }
            assert forall|key: Seq<char>| texts(pending@).contains(key) implies is_normal(
                key,
            ) by {
                assert(texts(found@).contains(key));
            }
            assert forall|key: Seq<char>| texts(pending@).contains(key) implies !keys.contains(
                key,
            ) by {
                assert(is_normal(key));
                assert(!keys.contains(normal_of(key)));
            }
        }
        LoadState { store, pending, rounds: 0, requested: Ghost(texts(pending@)) }
    }

    /// Whether the load is over.
    pub fn is_done(&self) -> (done: bool)
        ensures
            done == self.done(),
    {
        self.pending.len() == 0
    }

    /// The number of rounds with a batch that are over.
    pub fn round_count(&self) -> (rounds: usize)
        ensures
            rounds == self.rounds(),
    {
        self.rounds
    }

    /// The keys to fetch in the next round.
    pub fn pending_keys(&self) -> (keys: &Vec<String>)
        ensures
            texts(keys@) == self.pending(),
    {
        &self.pending
    }

    /// The store so far.
    pub fn assets(&self) -> (store: &RawAssets)
        ensures
            *store == self.store(),
    {
        &self.store
    }

    /// The batch of the next round: the keys to fetch, by their source.
    pub fn batch(&self) -> (batch: LoadBatch)
        requires
            self.wf(),
        ensures
            batch.partitions(self.pending()),
    {
        proof {
            let keys = self.pending();
            assert forall|i: int| 0 <= i < keys.len() implies normals(keys)[i] == keys[i] by {
                assert(keys.contains(keys[i]));
                assert(is_normal(keys[i]));
            }
            assert(normals(keys) =~= keys);
        }
        partition(&self.pending)
    }

    /// Ends the round that fetched `round`. Every key of the batch must be
    /// among those of `round`: the first that is not fails the load with
    /// `NotLoaded`, and the state stays as it was. Otherwise `round` is
    /// merged into the store, and the next batch holds the keys that the
    /// assets of `round` refer to and that the store does not hold by then.
    pub fn advance(&mut self, round: RawAssets) -> (done: Result<(), Error>)
        requires
            old(self).wf(),
            round.wf(),
        ensures
            final(self).wf(),
            match done {
                Ok(_) => Self::advanced(*old(self), round, *final(self)),
                Err(e) => {
                    &&& first_absent(old(self).pending(), round.keys()) matches Some(at)
                    &&& e.is_not_loaded(old(self).pending()[at])
                    &&& *final(self) == *old(self)
                },
            },
    {
        let ghost before = *self;
        let ghost wanted = self.pending();
        let ghost absent = |key: Seq<char>| !round.keys().contains(key);
        let mut i: usize = 0;
        proof {
            assert(wanted.take(0) =~= Seq::<Seq<char>>::empty());
        }
        while i < self.pending.len()
            invariant
                i <= self.pending.len(),
                *self == before,
                before == *old(self),
                before.wf(),
                wanted == self.pending(),
                round.wf(),
                absent == |key: Seq<char>| !round.keys().contains(key),
                first_where(wanted.take(i as int), absent) is None,
            decreases self.pending.len() - i,
        {
            proof {
                assert(wanted[i as int] == self.pending@[i as int]@);
                assert(before.pending().contains(wanted[i as int]));
                assert(is_normal(wanted[i as int]));
                lemma_first_where_next(wanted, absent, i as int);
            }
            if !round.contains_key(self.pending[i].as_str()) {
                proof {
                    lemma_first_where_stays(wanted, absent, i + 1);
                }
                return Err(Error::NotLoaded(self.pending[i].clone()));
            }
            i += 1;
        }
        proof {
            assert(wanted.take(wanted.len() as int) =~= wanted);
            lemma_none_absent(wanted, round.keys());
        }
        let had_batch = self.pending.len() > 0;
        let mut found = no_keys();
        collect_references(&round, &mut found);
        self.store.extend(round);
        let pending = unknown_keys(&found, &self.store);
        proof {
            lemma_round_keeps_invariant(before, round, self.store, texts(pending@));
            self.store.lemma_count_fits();
        }
        if had_batch {
            self.rounds = self.rounds + 1;
        }
        self.requested = Ghost(before.requested() + texts(pending@));
        self.pending = pending;
        Ok(())
    }

    /// Ends the load and hands out the store.
    pub fn finish(self) -> (store: RawAssets)
        requires
            self.wf(),
        ensures
            store == self.store(),
            store.wf(),
    {
        self.store
    }
}

/// The normal forms of `paths` in the order of their first occurrence, each
/// once.
pub fn distinct_keys(paths: &Vec<String>) -> (keys: Vec<String>)
    ensures
        texts(keys@) == distinct(normals(texts(paths@))),
{
    let mut keys = no_keys();
    let ghost all = normals(texts(paths@));
    let mut i: usize = 0;
    proof {
        assert(all.take(0) =~= Seq::<Seq<char>>::empty());
    }
    while i < paths.len()
        invariant
            i <= paths.len(),
            all == normals(texts(paths@)),
            texts(keys@) == distinct(all.take(i as int)),
        decreases paths.len() - i,
    {
        proof {
            assert(all.take(i + 1).drop_last() =~= all.take(i as int));
            assert(all[i as int] == normal_of(paths@[i as int]@));
        }
        push_new(&mut keys, normalize(paths[i].as_str()));
        i += 1;
    }
    proof {
        assert(all.take(all.len() as int) =~= all);
    }
    keys
}

/// The distinct normal forms of a list of keys are in normal form.
pub proof fn lemma_distinct_normals(keys: Seq<Seq<char>>)
    ensures
        forall|key: Seq<char>| distinct(normals(keys)).contains(key) ==> is_normal(key),
{
    lemma_distinct(normals(keys));
    assert forall|key: Seq<char>| distinct(normals(keys)).contains(key) implies is_normal(
        key,
    ) by {
        assert(normals(keys).contains(key));
        let at = normals(keys).index_of(key);
        assert(normals(keys)[at] == key);
        lemma_normal_is_normal(keys[at]);
    }
}

/// The bytes under a stored key are those at its position.
pub proof fn lemma_stored_bytes(assets: RawAssets, at: int)
    requires
        assets.wf(),
        0 <= at < assets.keys().len(),
    ensures
        assets@.contains_key(assets.keys()[at]),
        assets@[assets.keys()[at]] == assets.blobs()[at],
{
    lemma_index_of_key(assets.keys(), at);
}

/// Merging a round that holds every key of the batch, and asking next for
/// the references of its assets that are not stored by then, keeps what a
/// load state must hold, and makes the store grow if there was a batch.
proof fn lemma_round_keeps_invariant(
    before: LoadState,
    round: RawAssets,
    store: RawAssets,
    pending: Seq<Seq<char>>,
)
    requires
        before.wf(),
        round.wf(),
        store.wf(),
        forall|key: Seq<char>| before.pending().contains(key) ==> round.keys().contains(key),
        store@ == before.store()@.union_prefer_right(round@),
        store.keys() == with_keys(before.store().keys(), round.keys()),
        pending == missing_references(round.keys(), round.blobs(), store.keys()),
    ensures
        pending.no_duplicates(),
        forall|key: Seq<char>| pending.contains(key) ==> is_normal(key),
        forall|key: Seq<char>| pending.contains(key) ==> !store.keys().contains(key),
        closed_but(store.keys(), store.blobs(), pending),
        (before.requested() + pending).no_duplicates(),
        forall|key: Seq<char>|
            (before.requested() + pending).contains(key) ==> store.keys().contains(key)
                || pending.contains(key),
        forall|key: Seq<char>| pending.contains(key) ==> (before.requested() + pending).contains(key),
        !before.done() ==> before.store().keys().len() < store.keys().len(),
        before.store().keys().len() <= store.keys().len(),
{
    let old_keys = before.store().keys();
    let old_blobs = before.store().blobs();
    let keys = store.keys();
    let blobs = store.blobs();
    let named = all_references(round.keys(), round.blobs());
    lemma_distinct(named);
    lemma_unknown(distinct(named), keys);
    lemma_with_keys(old_keys, round.keys());
    assert forall|key: Seq<char>| named.contains(key) implies is_normal(key) by {
        lemma_all_references_are_normal(round.keys(), round.blobs(), key);
    }
    assert forall|at: int, key: Seq<char>|
        0 <= at < keys.len() && #[trigger] references_of(keys[at], blobs[at]).contains(
            key,
        ) implies keys.contains(key) || pending.contains(key) by {
        let holder = keys[at];
        lemma_stored_bytes(store, at);
        assert(keys.contains(holder));
        if round.keys().contains(holder) {
            let from = round.keys().index_of(holder);
            lemma_stored_bytes(round, from);
            lemma_all_references(round.keys(), round.blobs(), from, key);
            assert(named.contains(key));
            assert(distinct(named).contains(key));
            assert(is_normal(key));
        } else {
            assert(old_keys.contains(holder));
            let from = old_keys.index_of(holder);
            lemma_stored_bytes(before.store(), from);
            assert(references_of(old_keys[from], old_blobs[from]).contains(key));
        }
    }
    assert forall|key: Seq<char>| pending.contains(key) implies is_normal(key) by {
        assert(distinct(named).contains(key));
        assert(named.contains(key));
    }
    assert forall|key: Seq<char>| pending.contains(key) implies !keys.contains(key) by {
        assert(is_normal(key));
        assert(!keys.contains(normal_of(key)));
    }
    let history = before.requested() + pending;
    assert forall|key: Seq<char>| history.contains(key) implies keys.contains(key)
        || pending.contains(key) by {
        let at = history.index_of(key);
        if at < before.requested().len() {
            assert(before.requested()[at] == key);
            assert(before.requested().contains(key));
        } else {
            assert(pending[at - before.requested().len()] == key);
        }
    }
    assert forall|key: Seq<char>| pending.contains(key) implies history.contains(key) by {
        let at = pending.index_of(key);
        assert(history[before.requested().len() + at] == key);
    }
    assert forall|i: int, j: int| 0 <= i < history.len() && 0 <= j < history.len() && i
        != j implies history[i] != history[j] by {
        let asked = before.requested().len();
        if i < asked && j >= asked {
            assert(before.requested().contains(history[i]));
            assert(pending.contains(history[j]));
        }
        if j < asked && i >= asked {
            assert(before.requested().contains(history[j]));
            assert(pending.contains(history[i]));
        }
    }
    if !before.done() {
        let first = before.pending()[0];
        assert(before.pending().contains(first));
        assert(keys.contains(first));
        if keys.len() == old_keys.len() {
            assert(keys.take(old_keys.len() as int) =~= keys);
        }
    }
}

/// A load is repeatable: from states that agree, rounds that fetched the
/// same assets lead to states that agree. With the same keys asked for and
/// sources that answer alike, two loads end with the same store, byte for
/// byte.
pub proof fn law_rounds_are_repeatable(
    first: LoadState,
    second: LoadState,
    first_round: RawAssets,
    second_round: RawAssets,
    first_after: LoadState,
    second_after: LoadState,
)
    requires
        first.wf(),
        second.wf(),
        first_round.wf(),
        second_round.wf(),
        first_after.wf(),
        second_after.wf(),
        first.agrees_with(second),
        first_round.keys() == second_round.keys(),
        first_round.blobs() == second_round.blobs(),
        LoadState::advanced(first, first_round, first_after),
        LoadState::advanced(second, second_round, second_after),
    ensures
        first_after.agrees_with(second_after),
{
    let keys = first_after.store().keys();
    assert forall|at: int| 0 <= at < keys.len() implies first_after.store().blobs()[at]
        == second_after.store().blobs()[at] by {
        lemma_stored_bytes(first_after.store(), at);
        lemma_stored_bytes(second_after.store(), at);
    }
    assert(first_after.store().blobs() =~= second_after.store().blobs());
}

/// The keys that the assets of a round refer to, as a set, are those that
/// some asset of its map refers to.
proof fn lemma_references_of_map(round: RawAssets, key: Seq<char>)
    requires
        round.wf(),
    ensures
        all_references(round.keys(), round.blobs()).contains(key) <==> exists|holder: Seq<char>|
            round@.contains_key(holder) && #[trigger] references_of(
                holder,
                round@[holder],
            ).contains(key),
{
    let keys = round.keys();
    let blobs = round.blobs();
    if all_references(keys, blobs).contains(key) {
        lemma_reference_has_holder(keys, blobs, key);
        let at = choose|at: int|
            0 <= at < keys.len() && #[trigger] references_of(keys[at], blobs[at]).contains(key);
        lemma_stored_bytes(round, at);
        assert(round@.contains_key(keys[at]) && references_of(keys[at], round@[keys[at]]).contains(
            key,
        ));
    }
    if exists|holder: Seq<char>|
        round@.contains_key(holder) && #[trigger] references_of(holder, round@[holder]).contains(
            key,
        ) {
        let holder = choose|holder: Seq<char>|
            round@.contains_key(holder) && #[trigger] references_of(
                holder,
                round@[holder],
            ).contains(key);
        let at = keys.index_of(holder);
        lemma_stored_bytes(round, at);
        lemma_all_references(keys, blobs, at, key);
    }
}

/// What a load holds does not depend on the order in which assets arrive:
/// from states with the same content, rounds that fetched the same assets,
/// in whatever order, lead to states with the same content.
pub proof fn law_arrival_order_does_not_matter(
    first: LoadState,
    second: LoadState,
    first_round: RawAssets,
    second_round: RawAssets,
    first_after: LoadState,
    second_after: LoadState,
)
    requires
        first.wf(),
        second.wf(),
        first_round.wf(),
        second_round.wf(),
        first_after.wf(),
        second_after.wf(),
        first.same_content_as(second),
        first_round@ == second_round@,
        LoadState::advanced(first, first_round, first_after),
        LoadState::advanced(second, second_round, second_after),
    ensures
        first_after.same_content_as(second_after),
{
    let first_named = all_references(first_round.keys(), first_round.blobs());
    let second_named = all_references(second_round.keys(), second_round.blobs());
    lemma_distinct(first_named);
    lemma_distinct(second_named);
    lemma_unknown(distinct(first_named), first_after.store().keys());
    lemma_unknown(distinct(second_named), second_after.store().keys());
    assert forall|key: Seq<char>| first_named.contains(key) implies is_normal(key) by {
        lemma_all_references_are_normal(first_round.keys(), first_round.blobs(), key);
    }
    assert forall|key: Seq<char>| second_named.contains(key) implies is_normal(key) by {
        lemma_all_references_are_normal(second_round.keys(), second_round.blobs(), key);
    }
    assert forall|key: Seq<char>|
        first_after.pending().to_set().contains(key) == second_after.pending().to_set().contains(
            key,
        ) by {
        lemma_references_of_map(first_round, key);
        lemma_references_of_map(second_round, key);
        if first_named.contains(key) {
            assert(is_normal(key));
        }
        if second_named.contains(key) {
            assert(is_normal(key));
        }
        assert(first_after.pending().contains(key) == (distinct(first_named).contains(key)
            && !first_after.store().keys().contains(normal_of(key))));
        assert(second_after.pending().contains(key) == (distinct(second_named).contains(key)
            && !second_after.store().keys().contains(normal_of(key))));
        assert(first_after.store().keys().contains(key) == first_after.store()@.contains_key(key));
        assert(second_after.store().keys().contains(key) == second_after.store()@.contains_key(
            key,
        ));
    }
    assert(first_after.pending().to_set() =~= second_after.pending().to_set());
    if first.done() != second.done() {
        let (some, none) = if first.done() {
            (second.pending(), first.pending())
        } else {
            (first.pending(), second.pending())
        };
        assert(some.to_set().contains(some[0]));
        assert(none.to_set().contains(some[0]));
    }
}

/// No key is fetched twice: the keys that were ever in a batch are all
/// different, a key that is stored is in no batch, and a key that was in a
/// batch is in none that follows.
pub proof fn law_no_key_is_fetched_twice(before: LoadState, round: RawAssets, after: LoadState)
    requires
        before.wf(),
        round.wf(),
        after.wf(),
        LoadState::advanced(before, round, after),
    ensures
        after.requested().no_duplicates(),
        after.requested() == before.requested() + after.pending(),
        forall|key: Seq<char>|
            after.store().keys().contains(key) ==> !after.pending().contains(key),
        forall|key: Seq<char>|
            before.requested().contains(key) ==> !after.pending().contains(key),
{
    let history = after.requested();
    let asked = before.requested().len();
    assert forall|key: Seq<char>| before.requested().contains(key) implies !after.pending().contains(
        key,
    ) by {
        if after.pending().contains(key) {
            let i = before.requested().index_of(key);
            let j = after.pending().index_of(key);
            assert(history[i] == key);
            assert(history[asked + j] == key);
        }
    }
}

/// A round with a batch makes progress: every key of the batch is stored
/// afterwards, no stored key is lost, and of any finite set of keys that
/// holds all that are stored afterwards, fewer are left to fetch. So a load
/// over a finite graph of references, cyclic or not, has an end.
pub proof fn law_round_makes_progress(
    before: LoadState,
    round: RawAssets,
    after: LoadState,
    universe: Set<Seq<char>>,
)
    requires
        before.wf(),
        round.wf(),
        after.wf(),
        LoadState::advanced(before, round, after),
        !before.done(),
        universe.finite(),
        forall|key: Seq<char>| after.store().keys().contains(key) ==> universe.contains(key),
    ensures
        forall|key: Seq<char>| before.pending().contains(key) ==> after.store().keys().contains(key),
        forall|key: Seq<char>|
            before.store().keys().contains(key) ==> after.store().keys().contains(key),
        universe.difference(after.store().keys().to_set()).len() < universe.difference(
            before.store().keys().to_set(),
        ).len(),
        after.rounds() == before.rounds() + 1,
{
    lemma_none_absent(before.pending(), round.keys());
    lemma_with_keys(before.store().keys(), round.keys());
    let first = before.pending()[0];
    assert(before.pending().contains(first));
    let left_before = universe.difference(before.store().keys().to_set());
    let left_after = universe.difference(after.store().keys().to_set());
    assert(left_after.subset_of(left_before));
    assert(left_before.contains(first) && !left_after.contains(first));
    left_after.lemma_subset_not_in_lt(left_before, first);
}

/// When a load is over, the store holds every key that was ever asked for.
pub proof fn law_finished_load_holds_what_was_asked_for(state: LoadState, key: Seq<char>)
    requires
        state.wf(),
        state.done(),
        state.requested().contains(key),
    ensures
        state.store().keys().contains(key),
{
    assert(!state.pending().contains(key)) by {
        if state.pending().contains(key) {
            assert(state.pending().index_of(key) < state.pending().len());
        }
    }
}

/// When a load is over, the store holds every asset that a stored asset
/// refers to.
pub proof fn law_finished_load_is_closed(state: LoadState, at: int, key: Seq<char>)
    requires
        state.wf(),
        state.done(),
        0 <= at < state.store().keys().len(),
        references_of(state.store().keys()[at], state.store().blobs()[at]).contains(key),
    ensures
        state.store().keys().contains(key),
{
    assert(!state.pending().contains(key)) by {
        if state.pending().contains(key) {
            assert(state.pending().index_of(key) < state.pending().len());
        }
    }
}

} // verus!
