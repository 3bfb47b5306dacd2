//! What a fetcher hands back: for each key the bytes that were read, or the
//! reason why they could not be read.

use vstd::prelude::*;
use crate::error::Error;
use crate::key_list::{first_where, lemma_first_where_next, lemma_first_where_stays, with_keys};
use crate::network::{check_body, looks_like_html, page_text};
use crate::path::{has_extension, with_extension};
use crate::raw_assets::RawAssets;
use crate::source::normal_of;

verus! {

/// The outcome of fetching one key.
#[derive(Debug)]
pub struct Fetched {
    /// The key that was fetched.
    pub key: String,
    /// The bytes that were read, or the reason why none were.
    pub outcome: Result<Vec<u8>, String>,
}

/// The model of a [`Fetched`].
pub struct FetchedView {
    /// The key that was fetched.
    pub key: Seq<char>,
    /// The bytes that were read, or the reason why none were.
    pub outcome: Result<Seq<u8>, Seq<char>>,
}

impl View for Fetched {
    type V = FetchedView;

    open spec fn view(&self) -> FetchedView {
        FetchedView {
            key: self.key@,
            outcome: match self.outcome {
                Ok(bytes) => Ok(bytes@),
                Err(cause) => Err(cause@),
            },
        }
    }
}

/// The models of a list of outcomes.
pub open spec fn outcomes(fetched: Seq<Fetched>) -> Seq<FetchedView> {
    Seq::new(fetched.len(), |i: int| fetched[i]@)
}

/// `key` names an HTML page: its extension is `html` or `htm`.
pub open spec fn names_page(key: Seq<char>) -> bool {
    has_extension(key, "html"@) || has_extension(key, "htm"@)
}

/// Decides whether `key` names an HTML page.
pub fn is_page(key: &str) -> (page: bool)
    ensures
        page == names_page(key@),
{
    with_extension(key, "html") || with_extension(key, "htm")
}

/// The fetch of this key failed; where `sniff` is set, bytes that look like
/// an HTML page count as a failure too, unless the key names such a page.
pub open spec fn failed(fetched: FetchedView, sniff: bool) -> bool {
    match fetched.outcome {
        Ok(bytes) => sniff && !names_page(fetched.key) && looks_like_html(bytes),
        Err(_) => true,
    }
}

/// The reason that is reported for a failed fetch.
pub open spec fn reason(fetched: FetchedView) -> Seq<char> {
    match fetched.outcome {
        Ok(bytes) => page_text(bytes),
        Err(cause) => cause,
    }
}

/// The normal forms of the keys of a list of outcomes.
pub open spec fn fetched_keys(fetched: Seq<FetchedView>) -> Seq<Seq<char>> {
    Seq::new(fetched.len(), |i: int| normal_of(fetched[i].key))
}

/// The map that sends the normal form of the key of each outcome with bytes
/// to those bytes; of two outcomes for one key the later counts.
pub open spec fn fetched_map(fetched: Seq<FetchedView>) -> Map<Seq<char>, Seq<u8>>
    decreases fetched.len(),
{
    if fetched.len() == 0 {
        Map::empty()
    } else {
        let before = fetched_map(fetched.drop_last());
        match fetched.last().outcome {
            Ok(bytes) => before.insert(normal_of(fetched.last().key), bytes),
            Err(_) => before,
        }
    }
}

/// The position of the first outcome that is a failure.
pub open spec fn first_failed(fetched: Seq<FetchedView>, sniff: bool) -> Option<int> {
    first_where(fetched, |one: FetchedView| failed(one, sniff))
}

/// Stores what was fetched, outcome by outcome. The first failure ends it.
fn collect(fetched: Vec<Fetched>, from_network: bool, sniff: bool) -> (loaded: Result<
    RawAssets,
    Error,
>)
    requires
        sniff ==> from_network,
    ensures
        match loaded {
            Ok(assets) => {
                &&& assets.wf()
                &&& first_failed(outcomes(fetched@), sniff) is None
                &&& assets@ == fetched_map(outcomes(fetched@))
                &&& assets.keys() == with_keys(Seq::empty(), fetched_keys(outcomes(fetched@)))
            },
            Err(e) => {
                &&& first_failed(outcomes(fetched@), sniff) matches Some(at)
                &&& if from_network {
                    e.is_failed_loading_url(
                        outcomes(fetched@)[at].key,
                        reason(outcomes(fetched@)[at]),
                    )
                } else {
                    e.is_failed_loading(outcomes(fetched@)[at].key, reason(outcomes(fetched@)[at]))
                }
            },
        },
{
    let ghost all = outcomes(fetched@);
    let ghost bad = |one: FetchedView| failed(one, sniff);
    let mut assets = RawAssets::new();
    proof {
        assert(all.take(0) =~= Seq::<FetchedView>::empty());
        assert(fetched_keys(all.take(0)) =~= Seq::<Seq<char>>::empty());
    }
    for one in it: fetched
        invariant
            all == outcomes(it.seq()),
            it.seq() == fetched@,
            bad == |one: FetchedView| failed(one, sniff),
            sniff ==> from_network,
            assets.wf(),
            first_where(all.take(it.index() as int), bad) is None,
            assets@ == fetched_map(all.take(it.index() as int)),
            assets.keys() == with_keys(Seq::empty(), fetched_keys(all.take(it.index() as int))),
    {
        let ghost n = it.index() as int;
        proof {
            assert(all[n] == one@);
            lemma_first_where_next(all, bad, n);
            assert(all.take(n + 1).drop_last() =~= all.take(n));
            assert(fetched_keys(all.take(n + 1)).drop_last() =~= fetched_keys(all.take(n)));
        }
        let Fetched { key, outcome } = one;
        let checked = match outcome {
            Ok(bytes) => if sniff && !is_page(key.as_str()) {
                check_body(key.as_str(), bytes)
            } else {
                Ok(bytes)
            },
            Err(cause) => if from_network {
                Err(Error::FailedLoadingUrl(key.clone(), cause))
            } else {
                Err(Error::FailedLoading(key.clone(), cause))
            },
        };
        match checked {
            Ok(bytes) => {
                assets.insert(key.as_str(), bytes);
            },
            Err(e) => {
                proof {
                    lemma_first_where_stays(all, bad, n + 1);
                }
                return Err(e);
            },
        }
    }
    proof {
        assert(all.take(all.len() as int) =~= all);
    }
    Ok(assets)
}

/// The assets that were read from disk. Fails with `FailedLoading`, the
/// path and the reason at the first path that could not be read.
pub fn collect_from_disk(fetched: Vec<Fetched>) -> (loaded: Result<RawAssets, Error>)
    ensures
        match loaded {
            Ok(assets) => {
                &&& assets.wf()
                &&& first_failed(outcomes(fetched@), false) is None
                &&& assets@ == fetched_map(outcomes(fetched@))
                &&& assets.keys() == with_keys(Seq::empty(), fetched_keys(outcomes(fetched@)))
            },
            Err(e) => {
                &&& first_failed(outcomes(fetched@), false) matches Some(at)
                &&& e.is_failed_loading(outcomes(fetched@)[at].key, reason(outcomes(fetched@)[at]))
            },
        },
{
    collect(fetched, false, false)
}

/// The assets that were fetched from a network. Fails with
/// `FailedLoadingUrl`, the URL and the reason at the first URL that could
/// not be fetched. Where `sniff` is set, an answer that looks like an HTML
/// page to a key that names no such page is such a failure, and the page is
/// its reason.
pub fn collect_from_network(fetched: Vec<Fetched>, sniff: bool) -> (loaded: Result<
    RawAssets,
    Error,
>)
    ensures
        match loaded {
            Ok(assets) => {
                &&& assets.wf()
                &&& first_failed(outcomes(fetched@), sniff) is None
                &&& assets@ == fetched_map(outcomes(fetched@))
                &&& assets.keys() == with_keys(Seq::empty(), fetched_keys(outcomes(fetched@)))
            },
            Err(e) => {
                &&& first_failed(outcomes(fetched@), sniff) matches Some(at)
                &&& e.is_failed_loading_url(
                    outcomes(fetched@)[at].key,
                    reason(outcomes(fetched@)[at]),
                )
            },
        },
{
    collect(fetched, true, sniff)
}

} // verus!
