//! The failures that loading and decoding assets can end in.

use vstd::prelude::*;
use crate::text::{append_decimal, decimal_of};

verus! {

/// A failure of this library.
///
/// Every variant holds plain text only: the cause reported by a file system,
/// a network client or a decoder is carried as its message.
#[derive(Debug, PartialEq, Eq)]
pub enum Error {
    /// A buffer, named first, must have the first length and has the second.
    InvalidBufferLength(String, usize, usize),
    /// The number of indices is not divisible by three.
    InvalidNumberOfIndices(usize),
    /// The largest index, given first, is not below the number of vertices.
    InvalidIndices(usize, usize),
    /// A transformation matrix cannot be inverted.
    FailedInvertingTransformationMatrix,
    /// An image could not be decoded or encoded.
    Image(String),
    /// An `.obj` or `.mtl` file could not be parsed.
    Obj(String),
    /// A `.pcd` file could not be parsed.
    Pcd(String),
    /// Reading or writing a file failed.
    IO(String),
    /// A `.gltf` or `.glb` file could not be parsed.
    Gltf(String),
    /// A glTF buffer is shorter than its declared length.
    GltfCorruptData,
    /// A glTF buffer refers to a binary section that is absent.
    GltfMissingData,
    /// A `.vol` file has the wrong size.
    VolCorruptData,
    /// The file with the given path could not be read, for the given reason.
    FailedLoading(String, String),
    /// The given URL could not be fetched, for the given reason.
    FailedLoadingUrl(String, String),
    /// The given URL is malformed or names no host.
    FailedParsingUrl(String),
    /// The given data URL is malformed, in the given way.
    FailedParsingDataUrl(String, String),
    /// No stored key matches the given key, which was asked for.
    NotLoaded(String),
    /// The named capability is not available.
    FeatureMissing(String),
    /// The asset with the given key cannot be decoded into the requested type.
    FailedDeserialize(String),
    /// The asset with the given key cannot be encoded.
    FailedSerialize(String),
    /// What was looked for, given first, is not in the asset with the given key.
    FailedConvertion(String, String),
}

impl Error {
    /// The message of the error.
    pub open spec fn message_text(&self) -> Seq<char> {
        match self {
            Error::InvalidBufferLength(name, wanted, actual) => name@
                + " buffer length must be "@ + decimal_of(*wanted as nat)
                + ", actual length is "@ + decimal_of(*actual as nat),
            Error::InvalidNumberOfIndices(count) =>
                "the number of indices must be divisable by 3, actual count is "@ + decimal_of(
                    *count as nat,
                ),
            Error::InvalidIndices(index, vertices) => "the max index "@ + decimal_of(
                *index as nat,
            ) + " must be less than the number of vertices "@ + decimal_of(*vertices as nat),
            Error::FailedInvertingTransformationMatrix =>
                "the transformation matrix cannot be inverted and is therefore invalid"@,
            Error::Image(_) => "error while parsing an image file"@,
            Error::Obj(_) => "error while parsing an .obj file"@,
            Error::Pcd(_) => "error while parsing an .pcd file"@,
            Error::IO(_) => "io error"@,
            Error::Gltf(_) => "error while parsing a .gltf file"@,
            Error::GltfCorruptData => "the .gltf file contain corrupt buffer data"@,
            Error::GltfMissingData => "the .gltf file contain missing buffer data"@,
            Error::VolCorruptData => "the .vol file contain wrong data size"@,
            Error::FailedLoading(path, cause) => "error while loading the file "@ + path@
                + ": "@ + cause@,
            Error::FailedLoadingUrl(url, cause) => "error while loading the url "@ + url@
                + ": "@ + cause@,
            Error::FailedParsingUrl(url) => "error while parsing the url "@ + url@,
            Error::FailedParsingDataUrl(url, cause) => "error while parsing data-url "@ + url@
                + ": "@ + cause@,
            Error::NotLoaded(key) => "tried to use "@ + key@
                + " which was not loaded or otherwise added to the raw assets"@,
            Error::FeatureMissing(feature) => "the feature "@ + feature@ + " is needed"@,
            Error::FailedDeserialize(path) => "failed to deserialize the file "@ + path@,
            Error::FailedSerialize(path) => "failed to serialize the file "@ + path@,
            Error::FailedConvertion(what, path) => "failed to find "@ + what@
                + " in the file "@ + path@,
        }
    }

    /// The message of the error, as text.
    pub fn message(&self) -> (text: String)
        ensures
            text@ == self.message_text(),
    {
        let mut text = String::new();
        proof {
            assert(forall|tail: Seq<char>| Seq::<char>::empty() + tail =~= tail);
        }
        match self {
            Error::InvalidBufferLength(name, wanted, actual) => {
                text.append(name.as_str());
                text.append(" buffer length must be ");
                append_decimal(&mut text, *wanted);
                text.append(", actual length is ");
                append_decimal(&mut text, *actual);
            },
            Error::InvalidNumberOfIndices(count) => {
                text.append("the number of indices must be divisable by 3, actual count is ");
                append_decimal(&mut text, *count);
            },
            Error::InvalidIndices(index, vertices) => {
                text.append("the max index ");
                append_decimal(&mut text, *index);
                text.append(" must be less than the number of vertices ");
                append_decimal(&mut text, *vertices);
            },
            Error::FailedInvertingTransformationMatrix => {
                text.append(
                    "the transformation matrix cannot be inverted and is therefore invalid",
                );
            },
            Error::Image(_) => {
                text.append("error while parsing an image file");
            },
            Error::Obj(_) => {
                text.append("error while parsing an .obj file");
            },
            Error::Pcd(_) => {
                text.append("error while parsing an .pcd file");
            },
            Error::IO(_) => {
                text.append("io error");
            },
            Error::Gltf(_) => {
                text.append("error while parsing a .gltf file");
            },
            Error::GltfCorruptData => {
                text.append("the .gltf file contain corrupt buffer data");
            },
            Error::GltfMissingData => {
                text.append("the .gltf file contain missing buffer data");
            },
            Error::VolCorruptData => {
                text.append("the .vol file contain wrong data size");
            },
            Error::FailedLoading(path, cause) => {
                text.append("error while loading the file ");
                text.append(path.as_str());
                text.append(": ");
                text.append(cause.as_str());
            },
            Error::FailedLoadingUrl(url, cause) => {
                text.append("error while loading the url ");
                text.append(url.as_str());
                text.append(": ");
                text.append(cause.as_str());
            },
            Error::FailedParsingUrl(url) => {
                text.append("error while parsing the url ");
                text.append(url.as_str());
            },
            Error::FailedParsingDataUrl(url, cause) => {
                text.append("error while parsing data-url ");
                text.append(url.as_str());
                text.append(": ");
                text.append(cause.as_str());
            },
            Error::NotLoaded(key) => {
                text.append("tried to use ");
                text.append(key.as_str());
                text.append(" which was not loaded or otherwise added to the raw assets");
            },
            Error::FeatureMissing(feature) => {
                text.append("the feature ");
                text.append(feature.as_str());
                text.append(" is needed");
            },
            Error::FailedDeserialize(path) => {
                text.append("failed to deserialize the file ");
                text.append(path.as_str());
            },
            Error::FailedSerialize(path) => {
                text.append("failed to serialize the file ");
                text.append(path.as_str());
            },
            Error::FailedConvertion(what, path) => {
                text.append("failed to find ");
                text.append(what.as_str());
                text.append(" in the file ");
                text.append(path.as_str());
            },
        }
        text
    }

    /// This is `NotLoaded` with the given key.
    pub open spec fn is_not_loaded(&self, key: Seq<char>) -> bool {
        self matches Error::NotLoaded(k) && k@ == key
    }

    /// This is `FeatureMissing` with the given name.
    pub open spec fn is_feature_missing(&self, feature: Seq<char>) -> bool {
        self matches Error::FeatureMissing(f) && f@ == feature
    }

    /// This is `FailedParsingUrl` with the given URL.
    pub open spec fn is_failed_parsing_url(&self, url: Seq<char>) -> bool {
        self matches Error::FailedParsingUrl(u) && u@ == url
    }

    /// This is `FailedParsingDataUrl` with the given key and cause.
    pub open spec fn is_failed_parsing_data_url(&self, key: Seq<char>, cause: Seq<char>) -> bool {
        self matches Error::FailedParsingDataUrl(k, c) && k@ == key && c@ == cause
    }

    /// This is `InvalidBufferLength` with the given name and lengths.
    pub open spec fn is_invalid_buffer_length(
        &self,
        name: Seq<char>,
        wanted: usize,
        actual: usize,
    ) -> bool {
        self matches Error::InvalidBufferLength(n, w, a) && n@ == name && w == wanted && a
            == actual
    }

    /// This is `FailedDeserialize` with the given key.
    pub open spec fn is_failed_deserialize(&self, key: Seq<char>) -> bool {
        self matches Error::FailedDeserialize(k) && k@ == key
    }

    /// This is `FailedConvertion` with the given thing and key.
    pub open spec fn is_failed_convertion(&self, what: Seq<char>, key: Seq<char>) -> bool {
        self matches Error::FailedConvertion(w, k) && w@ == what && k@ == key
    }

    /// This is `FailedLoading` with the given path and cause.
    pub open spec fn is_failed_loading(&self, path: Seq<char>, cause: Seq<char>) -> bool {
        self matches Error::FailedLoading(p, c) && p@ == path && c@ == cause
    }

    /// This is `FailedLoadingUrl` with the given key and cause.
    pub open spec fn is_failed_loading_url(&self, key: Seq<char>, cause: Seq<char>) -> bool {
        self matches Error::FailedLoadingUrl(k, c) && k@ == key && c@ == cause
    }
}

} // verus!
