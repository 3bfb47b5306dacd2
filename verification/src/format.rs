//! What a format has to offer so that its assets can be decoded from, and
//! encoded into, a store of raw bytes.

use vstd::prelude::*;
use crate::error::Error;
use crate::key_list::{first_where, lemma_first_where_next, lemma_first_where_stays};
use crate::path::{extension, extension_of, has_extension, with_extension};
use crate::raw_assets::{lemma_index_of_key, resolution, RawAssets};
use crate::source::{lemma_empty_key_is_normal, normal_of};

verus! {

/// An asset that can be decoded from the raw bytes in a store.
pub trait Deserialize: Sized {
    /// What decoding the asset named `path` does: it turns the store
    /// `before` into the store `after` and ends in `decoded`. A format that
    /// says nothing here promises nothing.
    open spec fn decodes(
        path: Seq<char>,
        before: RawAssets,
        after: RawAssets,
        decoded: Result<Self, Error>,
    ) -> bool {
        true
    }

    /// Decodes the asset that `path` names in `raw_assets`. The bytes that
    /// the decoder consumes may be taken out of the store.
    fn deserialize(path: &str, raw_assets: &mut RawAssets) -> (decoded: Result<Self, Error>)
        requires
            old(raw_assets).wf(),
        ensures
            final(raw_assets).wf(),
            Self::decodes(path@, *old(raw_assets), *final(raw_assets), decoded),
    ;
}

/// An asset that can be encoded into raw bytes.
pub trait Serialize: Sized {
    /// What encoding the asset under the key `path` ends in. A format that
    /// says nothing here promises nothing.
    open spec fn encodes(&self, path: Seq<char>, encoded: Result<RawAssets, Error>) -> bool {
        true
    }

    /// Encodes the asset into one or more raw assets; `path` is the key of
    /// the main one.
    fn serialize(&self, path: &str) -> (encoded: Result<RawAssets, Error>)
        ensures
            self.encodes(path@, encoded),
            encoded matches Ok(assets) ==> assets.wf(),
    ;
}

/// Decodes a single asset from `bytes`: the decoder sees a store that holds
/// `bytes` under the empty key and nothing else.
pub fn deserialize<T: Deserialize>(bytes: Vec<u8>) -> (decoded: Result<T, Error>)
    ensures
        exists|before: RawAssets, after: RawAssets|
            {
                &&& before.keys() == seq![""@]
                &&& before.blobs() == seq![bytes@]
                &&& #[trigger] T::decodes(""@, before, after, decoded)
            },
{
    let mut assets = RawAssets::new();
    assets.insert("", bytes);
    let ghost before = assets;
    let decoded = assets.deserialize::<T>("");
    proof {
        reveal_strlit("");
        lemma_empty_key_is_normal();
        assert(""@ =~= Seq::<char>::empty());
        assert(before.keys() =~= seq![""@]);
        lemma_index_of_key(before.keys(), 0);
        assert(before@[""@] == bytes@);
        assert(before.blobs() =~= seq![bytes@]);
        assert(T::decodes(""@, before, assets, decoded));
    }
    decoded
}

/// The formats that a scene can be decoded from.
#[derive(Debug, Copy, Clone, PartialEq, Eq)]
pub enum SceneFormat {
    /// glTF, as text (`.gltf`) or binary (`.glb`).
    Gltf,
    /// Wavefront `.obj`.
    Obj,
    /// `.stl`.
    Stl,
    /// Point cloud data, `.pcd`.
    Pcd,
    /// `.3mf`.
    ThreeMf,
}

/// The formats that a two-dimensional texture can be decoded from.
#[derive(Debug, Copy, Clone, PartialEq, Eq)]
pub enum ImageFormat {
    /// Scalable vector graphics, `.svg`.
    Svg,
    /// Any format of pixels.
    Pixels,
}

/// The kinds of geometry.
#[derive(Debug, Copy, Clone, PartialEq, Eq)]
pub enum GeometryKind {
    /// Points.
    Points,
    /// Triangles.
    Triangles,
}

/// The scene format that the extension of `key` stands for.
pub open spec fn scene_format_of(key: Seq<char>) -> Option<SceneFormat> {
    if has_extension(key, "gltf"@) || has_extension(key, "glb"@) {
        Some(SceneFormat::Gltf)
    } else if has_extension(key, "obj"@) {
        Some(SceneFormat::Obj)
    } else if has_extension(key, "stl"@) {
        Some(SceneFormat::Stl)
    } else if has_extension(key, "pcd"@) {
        Some(SceneFormat::Pcd)
    } else if has_extension(key, "3mf"@) {
        Some(SceneFormat::ThreeMf)
    } else {
        None
    }
}

/// The image format that the extension of `key` stands for.
pub open spec fn image_format_of(key: Seq<char>) -> ImageFormat {
    if has_extension(key, "svg"@) {
        ImageFormat::Svg
    } else {
        ImageFormat::Pixels
    }
}

/// The scene format that the extension of `key` stands for. Fails with
/// `FailedDeserialize` and the key if it stands for none.
pub fn scene_format(key: &str) -> (format: Result<SceneFormat, Error>)
    ensures
        match format {
            Ok(found) => scene_format_of(key@) == Some(found),
            Err(e) => scene_format_of(key@) is None && e.is_failed_deserialize(key@),
        },
{
    if with_extension(key, "gltf") || with_extension(key, "glb") {
        Ok(SceneFormat::Gltf)
    } else if with_extension(key, "obj") {
        Ok(SceneFormat::Obj)
    } else if with_extension(key, "stl") {
        Ok(SceneFormat::Stl)
    } else if with_extension(key, "pcd") {
        Ok(SceneFormat::Pcd)
    } else if with_extension(key, "3mf") {
        Ok(SceneFormat::ThreeMf)
    } else {
        Err(Error::FailedDeserialize(String::from_str(key)))
    }
}

/// The stored key that `path` resolves to in `raw_assets`, and the scene
/// format of that key. Fails with `NotLoaded` if `path` resolves to no key,
/// and with `FailedDeserialize` if the key stands for no scene format.
pub fn find_scene(raw_assets: &RawAssets, path: &str) -> (found: Result<
    (String, SceneFormat),
    Error,
>)
    requires
        raw_assets.wf(),
    ensures
        match found {
            Ok((key, format)) => {
                &&& resolution(raw_assets.keys(), normal_of(path@)) matches Some(at)
                &&& key@ == raw_assets.keys()[at]
                &&& scene_format_of(key@) == Some(format)
            },
            Err(e) => match resolution(raw_assets.keys(), normal_of(path@)) {
                Some(at) => scene_format_of(raw_assets.keys()[at]) is None
                    && e.is_failed_deserialize(raw_assets.keys()[at]),
                None => e.is_not_loaded(path@),
            },
        },
{
    let key = raw_assets.match_path(path)?;
    let format = scene_format(key.as_str())?;
    Ok((key, format))
}

/// The stored key that `path` resolves to in `raw_assets`, which must name
/// a `.vol` file. Fails with `NotLoaded` if `path` resolves to no key, and
/// with `FailedDeserialize` if the key has another extension.
pub fn find_voxel_grid(raw_assets: &RawAssets, path: &str) -> (found: Result<String, Error>)
    requires
        raw_assets.wf(),
    ensures
        match found {
            Ok(key) => {
                &&& resolution(raw_assets.keys(), normal_of(path@)) matches Some(at)
                &&& key@ == raw_assets.keys()[at]
                &&& has_extension(key@, "vol"@)
            },
            Err(e) => match resolution(raw_assets.keys(), normal_of(path@)) {
                Some(at) => !has_extension(raw_assets.keys()[at], "vol"@)
                    && e.is_failed_deserialize(raw_assets.keys()[at]),
                None => e.is_not_loaded(path@),
            },
        },
{
    let key = raw_assets.match_path(path)?;
    if with_extension(key.as_str(), "vol") {
        Ok(key)
    } else {
        Err(Error::FailedDeserialize(key))
    }
}

/// The stored key that `path` resolves to in `raw_assets`, and the image
/// format of that key. Fails with `NotLoaded` if `path` resolves to no key.
pub fn find_image(raw_assets: &RawAssets, path: &str) -> (found: Result<
    (String, ImageFormat),
    Error,
>)
    requires
        raw_assets.wf(),
    ensures
        match found {
            Ok((key, format)) => {
                &&& resolution(raw_assets.keys(), normal_of(path@)) matches Some(at)
                &&& key@ == raw_assets.keys()[at]
                &&& format == image_format_of(key@)
            },
            Err(e) => resolution(raw_assets.keys(), normal_of(path@)) is None && e.is_not_loaded(path@),
        },
{
    let key = raw_assets.match_path(path)?;
    let format = if with_extension(key.as_str(), "svg") {
        ImageFormat::Svg
    } else {
        ImageFormat::Pixels
    };
    Ok((key, format))
}

/// The name by which an image format is asked for: the extension of `key`,
/// or `image` if it has none.
pub fn image_extension(key: &str) -> (name: String)
    ensures
        name@ == match extension_of(key@) {
            Some(extension) => extension,
            None => "image"@,
        },
{
    match extension(key) {
        Some(found) => found,
        None => String::from_str("image"),
    }
}

/// What a geometry of one kind is called where it is missed.
pub open spec fn kind_name(kind: GeometryKind) -> Seq<char> {
    match kind {
        GeometryKind::Points => "a point cloud"@,
        GeometryKind::Triangles => "a triangle mesh"@,
    }
}

/// The position of the first geometry of the kind `wanted` among those of
/// a model decoded from `path`. Fails with `FailedConvertion`, the name of
/// the kind and `path` if there is none.
pub fn pick_geometry(kinds: &Vec<GeometryKind>, wanted: GeometryKind, path: &str) -> (found:
    Result<usize, Error>)
    ensures
        match found {
            Ok(at) => first_where(kinds@, |kind: GeometryKind| kind == wanted) == Some(
                at as int,
            ),
            Err(e) => first_where(kinds@, |kind: GeometryKind| kind == wanted) is None
                && e.is_failed_convertion(kind_name(wanted), path@),
        },
{
    let ghost same = |kind: GeometryKind| kind == wanted;
    let mut i: usize = 0;
    proof {
        assert(kinds@.take(0) =~= Seq::<GeometryKind>::empty());
    }
    while i < kinds.len()
        invariant
            i <= kinds.len(),
            same == |kind: GeometryKind| kind == wanted,
            first_where(kinds@.take(i as int), same) is None,
        decreases kinds.len() - i,
    {
        proof {
            lemma_first_where_next(kinds@, same, i as int);
        }
        let found = match (kinds[i], wanted) {
            (GeometryKind::Points, GeometryKind::Points) => true,
            (GeometryKind::Triangles, GeometryKind::Triangles) => true,
            _ => false,
        };
        if found {
            proof {
                lemma_first_where_stays(kinds@, same, i + 1);
            }
            return Ok(i);
        }
        i += 1;
    }
    proof {
        assert(kinds@.take(kinds@.len() as int) =~= kinds@);
    }
    let what = match wanted {
        GeometryKind::Points => String::from_str("a point cloud"),
        GeometryKind::Triangles => String::from_str("a triangle mesh"),
    };
    Err(Error::FailedConvertion(what, String::from_str(path)))
}

} // verus!
