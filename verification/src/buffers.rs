//! What the decoder of a glTF document needs besides the parser: the data
//! of the buffers, taken out of the store, and names for the materials.

use vstd::prelude::*;
use crate::dependencies::{key_of, name_of};
use crate::error::Error;
use crate::path::{join, parent};
use crate::raw_assets::{resolution, RawAssets};
use crate::source::{is_data_url, normal_of, normalize};
use crate::text::{append_decimal, decimal_of};

verus! {

/// The number of zero bytes that pad `length` bytes to a multiple of four.
pub open spec fn padding_of(length: nat) -> nat {
    ((4 - length % 4) % 4) as nat
}

/// `data`, followed by zero bytes up to a multiple of four.
pub open spec fn padded(data: Seq<u8>) -> Seq<u8> {
    data + Seq::new(padding_of(data.len()), |i: int| 0u8)
}

/// Appends zero bytes to `data` until its length is a multiple of four.
pub fn pad_to_four(data: &mut Vec<u8>)
    ensures
        final(data)@ == padded(old(data)@),
        final(data)@.len() % 4 == 0,
{
    let ghost start = data@;
    proof {
        assert(start + Seq::new(0, |i: int| 0u8) =~= start);
    }
    while data.len() % 4 != 0
        invariant
            start.len() <= data@.len() <= start.len() + padding_of(start.len()),
            data@ == start + Seq::new((data@.len() - start.len()) as nat, |i: int| 0u8),
        decreases start.len() + padding_of(start.len()) - data@.len(),
    {
        data.push(0);
        proof {
            assert(data@ =~= start + Seq::new((data@.len() - start.len()) as nat, |i: int| 0u8));
        }
    }
}

/// The key under which the buffer with the given URI of a document stored
/// under `holder` is looked for.
pub fn buffer_key(holder: &str, uri: &str) -> (key: String)
    ensures
        key@ == key_of(holder@, uri@, true),
{
    if is_data_url(uri) {
        String::from_str(uri)
    } else {
        let dir = parent(holder);
        normalize(join(dir.as_str(), uri).as_str())
    }
}

/// Takes the data of one buffer of the document stored under `holder`: out
/// of the store where the buffer has a URI, else out of the binary section
/// `blob` of the file. Fails with `NotLoaded` if the store has nothing for
/// the URI, and with `GltfMissingData` if there is no binary section to
/// take; then nothing has changed. Fails with `GltfCorruptData` if the data
/// are shorter than the buffer declares; they are taken by then. Data that
/// are long enough are returned, padded with zeros to a multiple of four.
pub fn take_buffer(
    raw_assets: &mut RawAssets,
    holder: &str,
    uri: &Option<String>,
    blob: &mut Option<Vec<u8>>,
    declared: usize,
) -> (taken: Result<Vec<u8>, Error>)
    requires
        old(raw_assets).wf(),
    ensures
        final(raw_assets).wf(),
        match name_of(*uri) {
            Some(name) => {
                let key = key_of(holder@, name, true);
                &&& *final(blob) == *old(blob)
                &&& match resolution(old(raw_assets).keys(), normal_of(key)) {
                    Some(at) => {
                        &&& final(raw_assets).keys() == old(raw_assets).keys().remove(at)
                        &&& final(raw_assets).blobs() == old(raw_assets).blobs().remove(at)
                        &&& outcome_of(old(raw_assets).blobs()[at], declared, taken)
                    },
                    None => {
                        &&& final(raw_assets).keys() == old(raw_assets).keys()
                        &&& final(raw_assets).blobs() == old(raw_assets).blobs()
                        &&& taken matches Err(e) && e.is_not_loaded(key)
                    },
                }
            },
            None => {
                &&& final(raw_assets).keys() == old(raw_assets).keys()
                &&& final(raw_assets).blobs() == old(raw_assets).blobs()
                &&& *final(blob) is None
                &&& match *old(blob) {
                    Some(data) => outcome_of(data@, declared, taken),
                    None => taken matches Err(Error::GltfMissingData),
                }
            },
        },
{
    let mut data = match uri {
        Some(name) => {
            let key = buffer_key(holder, name.as_str());
            raw_assets.remove(key.as_str())?
        },
        None => match blob.take() {
            Some(data) => data,
            None => {
                return Err(Error::GltfMissingData);
            },
        },
    };
    if data.len() < declared {
        return Err(Error::GltfCorruptData);
    }
    pad_to_four(&mut data);
    Ok(data)
}

/// What taking a buffer with the given data ends in: `GltfCorruptData` if
/// the data are shorter than declared, else the padded data.
pub open spec fn outcome_of(data: Seq<u8>, declared: usize, taken: Result<Vec<u8>, Error>) -> bool {
    match taken {
        Ok(bytes) => data.len() >= declared && bytes@ == padded(data),
        Err(e) => data.len() < declared && e matches Error::GltfCorruptData,
    }
}

/// The name of a material: its own name if it has one, else `index` and
/// its index if it has one, else `default`.
pub open spec fn material_name_of(name: Option<Seq<char>>, index: Option<usize>) -> Seq<char> {
    match name {
        Some(text) => text,
        None => match index {
            Some(i) => "index "@ + decimal_of(i as nat),
            None => "default"@,
        },
    }
}

/// The name under which a material of a glTF document is known.
pub fn material_name(name: Option<&str>, index: Option<usize>) -> (text: String)
    ensures
        text@ == material_name_of(
            match name {
                Some(given) => Some(given@),
                None => None,
            },
            index,
        ),
{
    match name {
        Some(given) => String::from_str(given),
        None => match index {
            Some(i) => {
                let mut text = String::from_str("index ");
                append_decimal(&mut text, i);
                text
            },
            None => String::from_str("default"),
        },
    }
}

} // verus!
