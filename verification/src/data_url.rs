//! Keys that are data URLs: their bytes are decoded from the key itself.

use vstd::prelude::*;
use crate::error::Error;
use crate::key_list::{
    first_where, lemma_first_where_next, lemma_first_where_stays, texts, with_keys,
};
use crate::raw_assets::RawAssets;
use crate::source::{lemma_normals_take, normal_of, normals};

verus! {

/// What decoding the data URL `url` gives: its body, or a description of the
/// way in which the URL is malformed.
pub uninterp spec fn data_url_decoding(url: Seq<char>) -> Result<Seq<u8>, Seq<char>>;

/// Decodes a data URL with `data_url::DataUrl::process` followed by
/// `DataUrl::decode_to_vec`.
///
/// Trusted: the outcome is a function of the text of the URL alone. It is the
/// decoded body, or the debug text of the error of the call that failed.
#[verifier::external_body]
fn decode_data_url(url: &str) -> (decoded: Result<Vec<u8>, String>)
    ensures
        match decoded {
            Ok(body) => data_url_decoding(url@) == Ok::<Seq<u8>, Seq<char>>(body@),
            Err(cause) => data_url_decoding(url@) == Err::<Seq<u8>, Seq<char>>(cause@),
        },
{
    let parsed = data_url::DataUrl::process(url).map_err(|e| format!("{:?}", e))?;
    let (body, _) = parsed.decode_to_vec().map_err(|e| format!("{:?}", e))?;
    Ok(body)
}

/// The result of parsing the data URL `path`, given what decoding it gave:
/// the body, or `FailedParsingDataUrl` with the key and the cause.
pub fn data_url_outcome(path: &str, decoded: Result<Vec<u8>, String>) -> (parsed: Result<
    Vec<u8>,
    Error,
>)
    ensures
        match parsed {
            Ok(bytes) => decoded matches Ok(body) && bytes@ == body@,
            Err(e) => decoded matches Err(cause) && e.is_failed_parsing_data_url(
                path@,
                cause@,
            ),
        },
{
    match decoded {
        Ok(body) => Ok(body),
        Err(cause) => Err(Error::FailedParsingDataUrl(String::from_str(path), cause)),
    }
}

/// The bytes that the data URL `path` holds. Fails with
/// `FailedParsingDataUrl`, the key and the cause if the URL is malformed.
pub fn parse_data_url(path: &str) -> (parsed: Result<Vec<u8>, Error>)
    ensures
        match parsed {
            Ok(bytes) => data_url_decoding(path@) == Ok::<Seq<u8>, Seq<char>>(bytes@),
            Err(e) => data_url_decoding(path@) matches Err(cause)
                && e.is_failed_parsing_data_url(path@, cause),
        },
{
    data_url_outcome(path, decode_data_url(path))
}

/// The position of the first of `paths` that is a malformed data URL.
pub open spec fn first_malformed(paths: Seq<Seq<char>>) -> Option<int> {
    first_where(paths, |path: Seq<char>| data_url_decoding(path) is Err)
}

/// `map` with the normal form of every one of `paths` sent to the bytes
/// that it holds as a data URL; a malformed one is passed over.
pub open spec fn with_data_urls(map: Map<Seq<char>, Seq<u8>>, paths: Seq<Seq<char>>) -> Map<
    Seq<char>,
    Seq<u8>,
>
    decreases paths.len(),
{
    if paths.len() == 0 {
        map
    } else {
        let before = with_data_urls(map, paths.drop_last());
        match data_url_decoding(paths.last()) {
            Ok(body) => before.insert(normal_of(paths.last()), body),
            Err(_) => before,
        }
    }
}

/// Decodes the data URLs `paths` in turn and stores the bytes of each under
/// it. Stops at the first malformed one and fails with its error; those
/// before it are stored by then.
pub fn parse_data_urls(paths: Vec<String>, raw_assets: &mut RawAssets) -> (done: Result<(), Error>)
    requires
        old(raw_assets).wf(),
    ensures
        final(raw_assets).wf(),
        match done {
            Ok(_) => {
                &&& first_malformed(texts(paths@)) is None
                &&& final(raw_assets)@ == with_data_urls(old(raw_assets)@, texts(paths@))
                &&& final(raw_assets).keys() == with_keys(
                    old(raw_assets).keys(),
                    normals(texts(paths@)),
                )
            },
            Err(e) => {
                &&& first_malformed(texts(paths@)) matches Some(at)
                &&& data_url_decoding(texts(paths@)[at]) matches Err(cause)
                &&& e.is_failed_parsing_data_url(texts(paths@)[at], cause)
                &&& final(raw_assets)@ == with_data_urls(
                    old(raw_assets)@,
                    texts(paths@).take(at),
                )
                &&& final(raw_assets).keys() == with_keys(
                    old(raw_assets).keys(),
                    normals(texts(paths@).take(at)),
                )
            },
        },
{
    let ghost keys = texts(paths@);
    let ghost bad = |path: Seq<char>| data_url_decoding(path) is Err;
    let ghost before = *raw_assets;
    let mut i: usize = 0;
    proof {
        assert(keys.take(0) =~= Seq::<Seq<char>>::empty());
    }
    while i < paths.len()
        invariant
            i <= paths.len(),
            keys == texts(paths@),
            before == *old(raw_assets),
            raw_assets.wf(),
            bad == |path: Seq<char>| data_url_decoding(path) is Err,
            first_where(keys.take(i as int), bad) is None,
            raw_assets@ == with_data_urls(before@, keys.take(i as int)),
            raw_assets.keys() == with_keys(before.keys(), normals(keys.take(i as int))),
        decreases paths.len() - i,
    {
        proof {
            assert(keys.take(i + 1).drop_last() =~= keys.take(i as int));
            assert(keys[i as int] == paths[i as int]@);
            lemma_normals_take(keys, i as int);
            assert(normals(keys.take(i + 1)).drop_last() =~= normals(keys.take(i as int)));
            lemma_first_where_next(keys, bad, i as int);
        }
        match parse_data_url(paths[i].as_str()) {
            Ok(bytes) => {
                raw_assets.insert(paths[i].as_str(), bytes);
            },
            Err(e) => {
                proof {
                    lemma_first_where_stays(keys, bad, i + 1);
                }
                return Err(e);
            },
        }
        i += 1;
    }
    proof {
        assert(keys.take(keys.len() as int) =~= keys);
    }
    Ok(())
}

} // verus!
