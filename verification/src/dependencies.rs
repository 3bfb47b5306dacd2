//! Which other assets the bytes of an asset refer to.
//!
//! A scene file names its buffers and textures, an object file its material
//! library, a material library its texture maps. The parsers of these
//! formats are outside crates; what they read out of the bytes is held here
//! as plain values, and the rules that turn it into keys are this module's
//! own.

use vstd::prelude::*;
use crate::key_list::{
    distinct, lemma_distinct, lemma_with_key, lemma_with_keys_concat, no_keys, push_new, texts,
    with_keys,
};
use crate::path::{has_extension, join, joined, parent, parent_of, with_extension};
use crate::raw_assets::{resolution, RawAssets};
use crate::source::{
    is_data_url, is_normal, lemma_normal_is_normal, names_data_url, normal_of, normalize,
};
use crate::text::{chars_of, text_in, text_of};

verus! {

/// An image of a glTF document: the index of the buffer view that holds it,
/// or the URI that names it.
#[derive(Debug)]
pub struct GltfImage {
    /// The index of the buffer view that holds the image.
    pub buffer_view: Option<usize>,
    /// The URI of the image.
    pub uri: Option<String>,
}

/// What a glTF document says of its outside data.
#[derive(Debug)]
pub struct GltfOutline {
    /// For each buffer its URI; `None` for the binary section of the file.
    pub buffers: Vec<Option<String>>,
    /// The images.
    pub images: Vec<GltfImage>,
    /// For each texture the index of its image.
    pub textures: Vec<usize>,
}

/// The texture maps that a material of a material library names.
#[derive(Debug)]
pub struct MaterialMaps {
    /// The ambient map.
    pub ambient_map: Option<String>,
    /// The diffuse map.
    pub diffuse_map: Option<String>,
    /// The specular map.
    pub specular_map: Option<String>,
    /// The specular exponent map.
    pub specular_exponent_map: Option<String>,
    /// The displacement map.
    pub displacement_map: Option<String>,
    /// The dissolve map.
    pub dissolve_map: Option<String>,
    /// The decal map.
    pub decal_map: Option<String>,
    /// The bump map.
    pub bump_map: Option<String>,
}

/// The text of an optional name.
pub open spec fn name_of(name: Option<String>) -> Option<Seq<char>> {
    match name {
        Some(text) => Some(text@),
        None => None,
    }
}

/// The model of a [`GltfImage`].
pub struct GltfImageView {
    /// The index of the buffer view that holds the image.
    pub buffer_view: Option<usize>,
    /// The URI of the image.
    pub uri: Option<Seq<char>>,
}

/// The model of a [`GltfOutline`].
pub struct GltfOutlineView {
    /// For each buffer its URI.
    pub buffers: Seq<Option<Seq<char>>>,
    /// The images.
    pub images: Seq<GltfImageView>,
    /// For each texture the index of its image.
    pub textures: Seq<usize>,
}

impl View for GltfImage {
    type V = GltfImageView;

    open spec fn view(&self) -> GltfImageView {
        GltfImageView { buffer_view: self.buffer_view, uri: name_of(self.uri) }
    }
}

impl View for GltfOutline {
    type V = GltfOutlineView;

    open spec fn view(&self) -> GltfOutlineView {
        GltfOutlineView {
            buffers: Seq::new(self.buffers@.len(), |i: int| name_of(self.buffers@[i])),
            images: Seq::new(self.images@.len(), |i: int| self.images@[i]@),
            textures: self.textures@,
        }
    }
}

impl MaterialMaps {
    /// The names of the maps, in the order in which they are looked at.
    pub open spec fn names(&self) -> Seq<Option<Seq<char>>> {
        seq![
            name_of(self.ambient_map),
            name_of(self.diffuse_map),
            name_of(self.specular_map),
            name_of(self.specular_exponent_map),
            name_of(self.displacement_map),
            name_of(self.dissolve_map),
            name_of(self.decal_map),
            name_of(self.bump_map),
        ]
    }
}

/// The names of the maps of each material of a list.
pub open spec fn map_names(materials: Seq<MaterialMaps>) -> Seq<Seq<Option<Seq<char>>>> {
    Seq::new(materials.len(), |i: int| materials[i].names())
}

/// `bytes` begin like a binary glTF file that declares a total length below
/// the twelve bytes of its own header.
pub open spec fn declares_short_glb(bytes: Seq<u8>) -> bool {
    &&& bytes.len() >= 12
    &&& bytes[0] == 0x67 && bytes[1] == 0x6c && bytes[2] == 0x54 && bytes[3] == 0x46
    &&& bytes[8] < 12 && bytes[9] == 0 && bytes[10] == 0 && bytes[11] == 0
}

/// Decides whether `bytes` begin like a binary glTF file that declares a
/// total length below that of its header.
pub fn is_short_glb(bytes: &[u8]) -> (short: bool)
    ensures
        short == declares_short_glb(bytes@),
{
    bytes.len() >= 12 && bytes[0] == 0x67 && bytes[1] == 0x6c && bytes[2] == 0x54 && bytes[3]
        == 0x46 && bytes[8] < 12 && bytes[9] == 0 && bytes[10] == 0 && bytes[11] == 0
}

/// `c` is a decimal digit.
pub open spec fn is_digit(c: char) -> bool {
    '0' <= c <= '9'
}

/// The longest run of digits after a minus sign in an `.obj` file that is
/// handed to its parser: eighteen where a word has 64 bits, nine where it
/// has 32, four where it has 16.
pub open spec fn longest_obj_index() -> nat {
    if usize::MAX > 0xFFFF_FFFF {
        18
    } else if usize::MAX > 0xFFFF {
        9
    } else {
        4
    }
}

/// The number of characters that an `.obj` file handed to its parser stays
/// below: 2^60 where a word has 64 bits, 2^30 where it has 32, 2^13 where
/// it has 16.
pub open spec fn obj_text_limit() -> nat {
    if usize::MAX > 0xFFFF_FFFF {
        0x1000_0000_0000_0000
    } else if usize::MAX > 0xFFFF {
        0x4000_0000
    } else {
        0x2000
    }
}

/// A minus sign stands at `at`, and digits follow it up to `end`.
pub open spec fn minus_and_digits(text: Seq<char>, at: int, end: int) -> bool {
    &&& 0 <= at < end <= text.len()
    &&& text[at] == '-'
    &&& forall|i: int| at < i < end ==> is_digit(#[trigger] text[i])
}

/// `c` can stand beside a number of an `.obj` file: it is a space, a tab, a
/// line break, the slash between the parts of an index, or the sign of a
/// comment.
pub open spec fn is_break(c: char) -> bool {
    c == ' ' || c == '\t' || c == '\r' || c == '\n' || c == '/' || c == '#'
}

/// The minus sign at `at` and the digits up to `end` stand alone as a
/// negative whole number, with more digits than the parser is handed: a
/// break or the start of the text stands before them, and a break or the
/// end of the text after them.
pub open spec fn long_negative(text: Seq<char>, at: int, end: int) -> bool {
    &&& minus_and_digits(text, at, end)
    &&& end - at - 1 > longest_obj_index()
    &&& (at == 0 || is_break(text[at - 1]))
    &&& (end == text.len() || is_break(text[end]))
}

/// `text` can be handed to the parser of `.obj` files: it is short enough,
/// and holds no negative whole number with more digits than
/// `longest_obj_index` allows. The parser adds the number of vertices to
/// the size of a negative index in a machine word; within these limits the
/// sum stays in the range of the word.
pub open spec fn fits_obj_parser(text: Seq<char>) -> bool {
    &&& text.len() < obj_text_limit()
    &&& forall|at: int, end: int| !#[trigger] long_negative(text, at, end)
}

/// Decides whether `c` can stand beside a number of an `.obj` file.
fn breaks(c: char) -> (found: bool)
    ensures
        found == is_break(c),
{
    c == ' ' || c == '\t' || c == '\r' || c == '\n' || c == '/' || c == '#'
}

/// Decides whether `text` can be handed to the parser of `.obj` files.
pub fn check_obj_text(text: &str) -> (fits: bool)
    ensures
        fits == fits_obj_parser(text@),
{
    let chars = chars_of(text);
    let wide = usize::MAX as u64 > 0xFFFF_FFFFu64;
    let narrow = usize::MAX as u64 <= 0xFFFFu64;
    let longest: usize = if wide {
        18
    } else if narrow {
        4
    } else {
        9
    };
    let limit: u64 = if wide {
        0x1000_0000_0000_0000
    } else if narrow {
        0x2000
    } else {
        0x4000_0000
    };
    if chars.len() as u64 >= limit {
        return false;
    }
    let mut negative = false;
    let mut alone = false;
    let mut run: usize = 0;
    let mut i: usize = 0;
    while i < chars.len()
        invariant
            i <= chars.len(),
            chars@ == text@,
            longest == longest_obj_index(),
            run < i || !negative,
            negative ==> minus_and_digits(chars@, i - run - 1, i as int),
            negative ==> alone == (i - run - 1 == 0 || is_break(chars@[i - run - 2])),
            !negative ==> forall|at: int| !#[trigger] minus_and_digits(chars@, at, i as int),
            forall|at: int, end: int| end < i ==> !#[trigger] long_negative(chars@, at, end),
        decreases chars.len() - i,
    {
        let c = chars[i];
        let ghost start = i - run - 1;
        let ghost was_negative = negative;
        if '0' <= c && c <= '9' {
            if negative {
                run += 1;
            }
        } else {
            if negative && alone && run > longest && breaks(c) {
                assert(long_negative(chars@, start, i as int));
                return false;
            }
            if c == '-' {
                negative = true;
                alone = i == 0 || breaks(chars[i - 1]);
                run = 0;
            } else {
                negative = false;
                run = 0;
            }
        }
        proof {
            assert forall|at: int, end: int| end < i + 1 implies !#[trigger] long_negative(
                chars@,
                at,
                end,
            ) by {
                if end == i && long_negative(chars@, at, end) {
                    if was_negative {
                        if at < start {
                            assert(is_digit(chars@[start]));
                        }
                        if at > start {
                            assert(is_digit(chars@[at]));
                        }
                    }
                }
            }
            if !negative {
                assert forall|at: int| !#[trigger] minus_and_digits(chars@, at, i + 1) by {
                    if minus_and_digits(chars@, at, i + 1) {
                        if at < i {
                            assert(is_digit(chars@[i as int]));
                            assert(minus_and_digits(chars@, at, i as int));
                        }
                    }
                }
            }
        }
        i += 1;
    }
    if negative && alone && run > longest {
        assert(long_negative(chars@, i - run - 1, i as int));
        return false;
    }
    proof {
        assert forall|at: int, end: int| !#[trigger] long_negative(chars@, at, end) by {
            if end == i && long_negative(chars@, at, end) {
                let start = i - run - 1;
                if negative {
                    if at < start {
                        assert(is_digit(chars@[start]));
                    }
                    if at > start {
                        assert(is_digit(chars@[at]));
                    }
                }
            }
        }
    }
    true
}

/// What the bytes of a `.gltf` or `.glb` file say of its outside data, as
/// the file is read without validating it; `None` if the bytes are no glTF
/// document.
pub uninterp spec fn gltf_outline(bytes: Seq<u8>) -> Option<GltfOutlineView>;

/// The material library that the text of an `.obj` file names, if it names
/// one; `None` if the text is no valid `.obj` file.
pub uninterp spec fn obj_material_library(text: Seq<char>) -> Option<Option<Seq<char>>>;

/// For each material of the text of an `.mtl` file the names of its maps:
/// ambient, diffuse, specular, specular exponent, displacement, dissolve,
/// decal, bump. `None` if the text is no valid `.mtl` file.
pub uninterp spec fn mtl_map_names(text: Seq<char>) -> Option<Seq<Seq<Option<Seq<char>>>>>;

/// Reads a glTF document with `gltf::Gltf::from_slice_without_validation`
/// and takes its JSON with `gltf::Document::into_json`.
///
/// Trusted: the outcome is a function of the bytes alone. It holds the `uri`
/// of every buffer, the `bufferView` and `uri` of every image and the
/// `source` of every texture, each list in the order of the document. The
/// document is not validated: the validation of the outside crate indexes
/// lists of the document without a check, and nothing here reads what it
/// would protect. An index may therefore lie outside its list. The reader
/// subtracts the length of the header from the length that a binary file
/// declares; a file that declares less is kept away from it.
#[verifier::external_body]
fn read_gltf(bytes: &[u8]) -> (outline: Option<GltfOutline>)
    requires
        !declares_short_glb(bytes@),
    ensures
        match outline {
            Some(found) => gltf_outline(bytes@) == Some(found@),
            None => gltf_outline(bytes@) is None,
        },
{
    let root = gltf::Gltf::from_slice_without_validation(bytes).ok()?.document.into_json();
    Some(GltfOutline {
        buffers: root.buffers.into_iter().map(|b| b.uri).collect(),
        images: root.images.into_iter().map(|i| GltfImage {
            buffer_view: i.buffer_view.map(|v| v.value()),
            uri: i.uri,
        }).collect(),
        textures: root.textures.into_iter().map(|t| t.source.value()).collect(),
    })
}

/// Parses an `.obj` file with `wavefront_obj::obj::parse` and takes the
/// `material_library` of the result.
///
/// Trusted: the outcome is a function of the text alone. The parser adds
/// the number of vertices to the size of a negative index, which is a word
/// part that is a minus sign and digits and nothing else; a text with such a
/// part of more digits than the sum can bear is kept away from it. Words
/// end at a space, a tab, a line break or the sign of a comment, and their
/// parts at a slash.
#[verifier::external_body]
fn read_obj_library(text: &str) -> (library: Option<Option<String>>)
    requires
        fits_obj_parser(text@),
    ensures
        match library {
            Some(found) => obj_material_library(text@) == Some(name_of(found)),
            None => obj_material_library(text@) is None,
        },
{
    wavefront_obj::obj::parse(text).ok().map(|set| set.material_library)
}

/// Parses an `.mtl` file with `wavefront_obj::mtl::parse` and takes the
/// texture maps of each material of the result.
///
/// Trusted: the outcome is a function of the text alone, and holds the
/// materials in the order of the file.
#[verifier::external_body]
fn read_mtl_maps(text: &str) -> (materials: Option<Vec<MaterialMaps>>)
    ensures
        match materials {
            Some(found) => mtl_map_names(text@) == Some(map_names(found@)),
            None => mtl_map_names(text@) is None,
        },
{
    let set = wavefront_obj::mtl::parse(text).ok()?;
    Some(set.materials.into_iter().map(|m| MaterialMaps {
        ambient_map: m.ambient_map,
        diffuse_map: m.diffuse_map,
        specular_map: m.specular_map,
        specular_exponent_map: m.specular_exponent_map,
        displacement_map: m.displacement_map,
        dissolve_map: m.dissolve_map,
        decal_map: m.decal_map,
        bump_map: m.bump_map,
    }).collect())
}

/// The key that `uri` names in an asset stored under `holder`: the normal
/// form of `uri` read in the directory of `holder`. Where `inline` is set, a
/// data URL names itself.
pub open spec fn key_of(holder: Seq<char>, uri: Seq<char>, inline: bool) -> Seq<char> {
    if inline && names_data_url(uri) {
        uri
    } else {
        normal_of(joined(parent_of(holder), uri))
    }
}

/// A key that an asset refers to is in normal form.
pub proof fn lemma_key_of_is_normal(holder: Seq<char>, uri: Seq<char>, inline: bool)
    ensures
        is_normal(key_of(holder, uri, inline)),
{
    if inline && names_data_url(uri) {
    } else {
        lemma_normal_is_normal(joined(parent_of(holder), uri));
    }
}

/// Every key of the distinct keys that a list of URIs names is in normal
/// form.
proof fn lemma_named_keys_are_normal(
    holder: Seq<char>,
    uris: Seq<Seq<char>>,
    inline: bool,
    key: Seq<char>,
)
    requires
        distinct(keys_of(holder, uris, inline)).contains(key),
    ensures
        is_normal(key),
{
    let named = keys_of(holder, uris, inline);
    lemma_distinct(named);
    assert(named.contains(key));
    let at = named.index_of(key);
    assert(named[at] == key);
    lemma_key_of_is_normal(holder, uris[at], inline);
}

/// A key that an asset refers to is in normal form.
pub proof fn lemma_references_are_normal(holder: Seq<char>, bytes: Seq<u8>, key: Seq<char>)
    requires
        references_of(holder, bytes).contains(key),
    ensures
        is_normal(key),
{
    if has_extension(holder, "gltf"@) || has_extension(holder, "glb"@) {
        lemma_named_keys_are_normal(holder, gltf_uris(gltf_outline(bytes)->0), true, key);
    } else if has_extension(holder, "obj"@) {
        let library = obj_material_library(text_of(bytes)->0)->0;
        lemma_named_keys_are_normal(holder, present(seq![library]), false, key);
    } else if has_extension(holder, "mtl"@) {
        let materials = mtl_map_names(text_of(bytes)->0)->0;
        lemma_named_keys_are_normal(holder, present(flattened(materials)), false, key);
    }
}

/// The keys that `uris` name in an asset stored under `holder`.
pub open spec fn keys_of(holder: Seq<char>, uris: Seq<Seq<char>>, inline: bool) -> Seq<Seq<char>> {
    Seq::new(uris.len(), |i: int| key_of(holder, uris[i], inline))
}

/// The names that are there, in order.
pub open spec fn present(names: Seq<Option<Seq<char>>>) -> Seq<Seq<char>>
    decreases names.len(),
{
    if names.len() == 0 {
        Seq::empty()
    } else {
        match names.last() {
            Some(name) => present(names.drop_last()).push(name),
            None => present(names.drop_last()),
        }
    }
}

/// The URI of the image with the given index, if there is such an image and
/// it is not held in a buffer view.
pub open spec fn image_uri(images: Seq<GltfImageView>, index: usize) -> Option<Seq<char>> {
    if index < images.len() && images[index as int].buffer_view is None {
        images[index as int].uri
    } else {
        None
    }
}

/// For each texture the URI of its image, if it has one.
pub open spec fn texture_uris(images: Seq<GltfImageView>, textures: Seq<usize>) -> Seq<
    Option<Seq<char>>,
> {
    Seq::new(textures.len(), |i: int| image_uri(images, textures[i]))
}

/// The URIs that a glTF document names: those of its buffers, then those of
/// the images of its textures.
pub open spec fn gltf_uris(outline: GltfOutlineView) -> Seq<Seq<char>> {
    present(outline.buffers + texture_uris(outline.images, outline.textures))
}

/// The keys that a glTF document stored under `holder` refers to, each once.
/// A URI that is a data URL is a key as it stands.
pub open spec fn gltf_references(holder: Seq<char>, outline: GltfOutlineView) -> Seq<Seq<char>> {
    distinct(keys_of(holder, gltf_uris(outline), true))
}

/// The keys that an `.obj` file stored under `holder` refers to: its
/// material library, if it names one.
pub open spec fn obj_references(holder: Seq<char>, library: Option<Seq<char>>) -> Seq<Seq<char>> {
    distinct(keys_of(holder, present(seq![library]), false))
}

/// All names of a list of lists, in order.
pub open spec fn flattened(lists: Seq<Seq<Option<Seq<char>>>>) -> Seq<Option<Seq<char>>>
    decreases lists.len(),
{
    if lists.len() == 0 {
        Seq::empty()
    } else {
        flattened(lists.drop_last()) + lists.last()
    }
}

/// The keys that an `.mtl` file stored under `holder` refers to, each once:
/// the maps of its materials.
pub open spec fn mtl_references(holder: Seq<char>, materials: Seq<Seq<Option<Seq<char>>>>) -> Seq<
    Seq<char>,
> {
    distinct(keys_of(holder, present(flattened(materials)), false))
}

/// Looking at one more name adds the key it stands for, if it is there and
/// the key is new.
proof fn lemma_one_more_name(
    holder: Seq<char>,
    names: Seq<Option<Seq<char>>>,
    name: Option<Seq<char>>,
    inline: bool,
)
    ensures
        distinct(keys_of(holder, present(names.push(name)), inline)) == match name {
            Some(uri) => with_keys(
                distinct(keys_of(holder, present(names), inline)),
                seq![key_of(holder, uri, inline)],
            ),
            None => distinct(keys_of(holder, present(names), inline)),
        },
{
    assert(names.push(name).drop_last() =~= names);
    match name {
        Some(uri) => {
            let before = keys_of(holder, present(names), inline);
            let after = keys_of(holder, present(names.push(name)), inline);
            assert(after =~= before + seq![key_of(holder, uri, inline)]);
            lemma_with_keys_concat(Seq::empty(), before, seq![key_of(holder, uri, inline)]);
        },
        None => {},
    }
}

/// Appends to `found` the key that `name` stands for in the directory
/// `dir`, if the name is there and the key is new.
fn add_reference(found: &mut Vec<String>, dir: &str, name: &Option<String>, inline: bool)
    ensures
        texts(final(found)@) == match name_of(*name) {
            Some(uri) => with_keys(
                texts(old(found)@),
                seq![
                    if inline && names_data_url(uri) {
                        uri
                    } else {
                        normal_of(joined(dir@, uri))
                    },
                ],
            ),
            None => texts(old(found)@),
        },
{
    match name {
        Some(uri) => {
            let key = if inline && is_data_url(uri.as_str()) {
                uri.clone()
            } else {
                normalize(join(dir, uri.as_str()).as_str())
            };
            proof {
                lemma_with_key(texts(found@), key@);
            }
            push_new(found, key);
        },
        None => {},
    }
}

/// The keys that a glTF document stored under `path` refers to.
pub fn gltf_dependencies(path: &str, outline: &GltfOutline) -> (found: Vec<String>)
    ensures
        texts(found@) == gltf_references(path@, outline@),
{
    let dir = parent(path);
    let mut found = no_keys();
    let ghost names = outline@.buffers + texture_uris(outline@.images, outline@.textures);
    let mut i: usize = 0;
    proof {
        assert(names.take(0) =~= Seq::<Option<Seq<char>>>::empty());
        assert(keys_of(path@, present(names.take(0)), true) =~= Seq::<Seq<char>>::empty());
    }
    while i < outline.buffers.len()
        invariant
            i <= outline.buffers.len(),
            dir@ == parent_of(path@),
            names == outline@.buffers + texture_uris(outline@.images, outline@.textures),
            texts(found@) == distinct(keys_of(path@, present(names.take(i as int)), true)),
        decreases outline.buffers.len() - i,
    {
        proof {
            assert(names.take(i + 1) =~= names.take(i as int).push(names[i as int]));
            assert(names[i as int] == name_of(outline.buffers@[i as int]));
            lemma_one_more_name(path@, names.take(i as int), names[i as int], true);
        }
        add_reference(&mut found, dir.as_str(), &outline.buffers[i], true);
        i += 1;
    }
    let buffers: usize = outline.buffers.len();
    let mut j: usize = 0;
    while j < outline.textures.len()
        invariant
            j <= outline.textures.len(),
            buffers == outline.buffers.len(),
            dir@ == parent_of(path@),
            names == outline@.buffers + texture_uris(outline@.images, outline@.textures),
            texts(found@) == distinct(keys_of(path@, present(names.take(buffers + j)), true)),
        decreases outline.textures.len() - j,
    {
        let ghost at = buffers + j;
        proof {
            assert(names.take(at + 1) =~= names.take(at).push(names[at]));
            assert(names[at] == image_uri(outline@.images, outline.textures@[j as int]));
            lemma_one_more_name(path@, names.take(at), names[at], true);
        }
        let index = outline.textures[j];
        if index < outline.images.len() && outline.images[index].buffer_view.is_none() {
            add_reference(&mut found, dir.as_str(), &outline.images[index].uri, true);
        }
        j += 1;
    }
    proof {
        assert(names.take(names.len() as int) =~= names);
    }
    found
}

/// The keys that an `.obj` file stored under `path` refers to, given the
/// material library that it names.
pub fn obj_dependencies(path: &str, library: &Option<String>) -> (found: Vec<String>)
    ensures
        texts(found@) == obj_references(path@, name_of(*library)),
{
    let dir = parent(path);
    let mut found = no_keys();
    proof {
        let none = Seq::<Option<Seq<char>>>::empty();
        assert(keys_of(path@, present(none), false) =~= Seq::<Seq<char>>::empty());
        assert(none.push(name_of(*library)) =~= seq![name_of(*library)]);
        lemma_one_more_name(path@, none, name_of(*library), false);
    }
    add_reference(&mut found, dir.as_str(), library, false);
    found
}

/// The keys that an `.mtl` file stored under `path` refers to, given the
/// maps of its materials.
pub fn mtl_dependencies(path: &str, materials: &Vec<MaterialMaps>) -> (found: Vec<String>)
    ensures
        texts(found@) == mtl_references(path@, map_names(materials@)),
{
    let dir = parent(path);
    let mut found = no_keys();
    let ghost lists = map_names(materials@);
    let mut i: usize = 0;
    proof {
        assert(lists.take(0) =~= Seq::<Seq<Option<Seq<char>>>>::empty());
        assert(keys_of(path@, present(flattened(lists.take(0))), false) =~= Seq::<
            Seq<char>,
        >::empty());
    }
    while i < materials.len()
        invariant
            i <= materials.len(),
            dir@ == parent_of(path@),
            lists == map_names(materials@),
            texts(found@) == distinct(
                keys_of(path@, present(flattened(lists.take(i as int))), false),
            ),
        decreases materials.len() - i,
    {
        let material = &materials[i];
        let ghost seen = flattened(lists.take(i as int));
        let ghost maps = material.names();
        proof {
            assert(lists.take(i + 1).drop_last() =~= lists.take(i as int));
            assert(flattened(lists.take(i + 1)) == seen + maps);
            assert(seen + maps.take(0) =~= seen);
            assert(seen + maps.take(8) =~= seen + maps);
            assert forall|k: int| 0 <= k < 8 implies (seen + maps.take(k + 1)) == (seen
                + maps.take(k)).push(#[trigger] maps[k]) by {
                assert((seen + maps.take(k + 1)) =~= (seen + maps.take(k)).push(maps[k]));
            }
            lemma_one_more_name(path@, seen + maps.take(0), maps[0], false);
            lemma_one_more_name(path@, seen + maps.take(1), maps[1], false);
            lemma_one_more_name(path@, seen + maps.take(2), maps[2], false);
            lemma_one_more_name(path@, seen + maps.take(3), maps[3], false);
            lemma_one_more_name(path@, seen + maps.take(4), maps[4], false);
            lemma_one_more_name(path@, seen + maps.take(5), maps[5], false);
            lemma_one_more_name(path@, seen + maps.take(6), maps[6], false);
            lemma_one_more_name(path@, seen + maps.take(7), maps[7], false);
        }
        add_reference(&mut found, dir.as_str(), &material.ambient_map, false);
        add_reference(&mut found, dir.as_str(), &material.diffuse_map, false);
        add_reference(&mut found, dir.as_str(), &material.specular_map, false);
        add_reference(&mut found, dir.as_str(), &material.specular_exponent_map, false);
        add_reference(&mut found, dir.as_str(), &material.displacement_map, false);
        add_reference(&mut found, dir.as_str(), &material.dissolve_map, false);
        add_reference(&mut found, dir.as_str(), &material.decal_map, false);
        add_reference(&mut found, dir.as_str(), &material.bump_map, false);
        i += 1;
    }
    proof {
        assert(lists.take(lists.len() as int) =~= lists);
    }
    found
}

/// The keys that the glTF document with the given bytes, stored under
/// `holder`, refers to; none if the bytes are no glTF document, or a binary
/// file that declares a length below that of its header.
pub open spec fn gltf_references_in(holder: Seq<char>, bytes: Seq<u8>) -> Seq<Seq<char>> {
    if declares_short_glb(bytes) {
        Seq::empty()
    } else {
        match gltf_outline(bytes) {
            Some(outline) => gltf_references(holder, outline),
            None => Seq::empty(),
        }
    }
}

/// The keys that the `.obj` file with the given bytes, stored under
/// `holder`, refers to; none if the bytes are no valid file, or do not fit
/// its parser.
pub open spec fn obj_references_in(holder: Seq<char>, bytes: Seq<u8>) -> Seq<Seq<char>> {
    match text_of(bytes) {
        Some(text) => if fits_obj_parser(text) {
            match obj_material_library(text) {
                Some(library) => obj_references(holder, library),
                None => Seq::empty(),
            }
        } else {
            Seq::empty()
        },
        None => Seq::empty(),
    }
}

/// The keys that the `.mtl` file with the given bytes, stored under
/// `holder`, refers to; none if the bytes are no valid file.
pub open spec fn mtl_references_in(holder: Seq<char>, bytes: Seq<u8>) -> Seq<Seq<char>> {
    match text_of(bytes) {
        Some(text) => match mtl_map_names(text) {
            Some(materials) => mtl_references(holder, materials),
            None => Seq::empty(),
        },
        None => Seq::empty(),
    }
}

/// The keys that the asset with the given key and bytes refers to, by the
/// format that the extension of the key stands for. An asset of another
/// format, or one whose bytes cannot be parsed, refers to nothing.
pub open spec fn references_of(key: Seq<char>, bytes: Seq<u8>) -> Seq<Seq<char>> {
    if has_extension(key, "gltf"@) || has_extension(key, "glb"@) {
        gltf_references_in(key, bytes)
    } else if has_extension(key, "obj"@) {
        obj_references_in(key, bytes)
    } else if has_extension(key, "mtl"@) {
        mtl_references_in(key, bytes)
    } else {
        Seq::empty()
    }
}

/// The bytes of the asset that a request for `path` resolves to; none if
/// it resolves to no asset.
pub open spec fn resolved_bytes(raw_assets: RawAssets, path: Seq<char>) -> Option<Seq<u8>> {
    match resolution(raw_assets.keys(), normal_of(path)) {
        Some(at) => Some(raw_assets.blobs()[at]),
        None => None,
    }
}

/// The keys that the glTF document with the given bytes, stored under
/// `path`, refers to.
pub fn gltf_dependencies_in(path: &str, bytes: &[u8]) -> (found: Vec<String>)
    ensures
        texts(found@) == gltf_references_in(path@, bytes@),
{
    if !is_short_glb(bytes) {
        if let Some(outline) = read_gltf(bytes) {
            return gltf_dependencies(path, &outline);
        }
    }
    no_keys()
}

/// The keys that the `.obj` file with the given bytes, stored under `path`,
/// refers to.
pub fn obj_dependencies_in(path: &str, bytes: &[u8]) -> (found: Vec<String>)
    ensures
        texts(found@) == obj_references_in(path@, bytes@),
{
    if let Some(text) = text_in(bytes) {
        if check_obj_text(text) {
            if let Some(library) = read_obj_library(text) {
                return obj_dependencies(path, &library);
            }
        }
    }
    no_keys()
}

/// The keys that the `.mtl` file with the given bytes, stored under `path`,
/// refers to.
pub fn mtl_dependencies_in(path: &str, bytes: &[u8]) -> (found: Vec<String>)
    ensures
        texts(found@) == mtl_references_in(path@, bytes@),
{
    if let Some(text) = text_in(bytes) {
        if let Some(materials) = read_mtl_maps(text) {
            return mtl_dependencies(path, &materials);
        }
    }
    no_keys()
}

/// The keys that the glTF document which `path` names in `raw_assets`
/// refers to: the URIs of its buffers and of the images of its textures.
/// None if `path` names no stored asset or its bytes are no glTF document.
pub fn dependencies(raw_assets: &RawAssets, path: &str) -> (found: Vec<String>)
    requires
        raw_assets.wf(),
    ensures
        texts(found@) == match resolved_bytes(*raw_assets, path@) {
            Some(bytes) => gltf_references_in(path@, bytes),
            None => Seq::empty(),
        },
{
    match raw_assets.get(path) {
        Ok(bytes) => gltf_dependencies_in(path, bytes),
        Err(_) => no_keys(),
    }
}

/// The keys that the `.obj` file which `path` names in `raw_assets` refers
/// to: its material library. None if `path` names no stored asset or its
/// bytes are no valid file.
pub fn dependencies_obj(raw_assets: &RawAssets, path: &str) -> (found: Vec<String>)
    requires
        raw_assets.wf(),
    ensures
        texts(found@) == match resolved_bytes(*raw_assets, path@) {
            Some(bytes) => obj_references_in(path@, bytes),
            None => Seq::empty(),
        },
{
    match raw_assets.get(path) {
        Ok(bytes) => obj_dependencies_in(path, bytes),
        Err(_) => no_keys(),
    }
}

/// The keys that the `.mtl` file which `path` names in `raw_assets` refers
/// to: the texture maps of its materials. None if `path` names no stored
/// asset or its bytes are no valid file.
pub fn dependencies_mtl(raw_assets: &RawAssets, path: &str) -> (found: Vec<String>)
    requires
        raw_assets.wf(),
    ensures
        texts(found@) == match resolved_bytes(*raw_assets, path@) {
            Some(bytes) => mtl_references_in(path@, bytes),
            None => Seq::empty(),
        },
{
    match raw_assets.get(path) {
        Ok(bytes) => mtl_dependencies_in(path, bytes),
        Err(_) => no_keys(),
    }
}

/// The keys that the asset with the given key and bytes refers to.
pub fn references(key: &str, bytes: &[u8]) -> (found: Vec<String>)
    ensures
        texts(found@) == references_of(key@, bytes@),
{
    if with_extension(key, "gltf") || with_extension(key, "glb") {
        gltf_dependencies_in(key, bytes)
    } else if with_extension(key, "obj") {
        obj_dependencies_in(key, bytes)
    } else if with_extension(key, "mtl") {
        mtl_dependencies_in(key, bytes)
    } else {
        no_keys()
    }
}

/// The keys that the assets with the given keys and bytes refer to, asset
/// by asset.
pub open spec fn all_references(keys: Seq<Seq<char>>, blobs: Seq<Seq<u8>>) -> Seq<Seq<char>>
    decreases keys.len(),
{
    if keys.len() == 0 || blobs.len() != keys.len() {
        Seq::empty()
    } else {
        all_references(keys.drop_last(), blobs.drop_last()) + references_of(
            keys.last(),
            blobs.last(),
        )
    }
}

/// Every key that an asset refers to is among the keys that all refer to.
pub proof fn lemma_all_references(keys: Seq<Seq<char>>, blobs: Seq<Seq<u8>>, at: int, key: Seq<char>)
    requires
        keys.len() == blobs.len(),
        0 <= at < keys.len(),
        references_of(keys[at], blobs[at]).contains(key),
    ensures
        all_references(keys, blobs).contains(key),
    decreases keys.len(),
{
    let before = all_references(keys.drop_last(), blobs.drop_last());
    let last = references_of(keys.last(), blobs.last());
    if at == keys.len() - 1 {
        let found = last.index_of(key);
        assert((before + last)[before.len() + found] == key);
    } else {
        lemma_all_references(keys.drop_last(), blobs.drop_last(), at, key);
        let found = before.index_of(key);
        assert((before + last)[found] == key);
    }
}

/// Every key among those that all assets refer to is one that some asset
/// refers to.
pub proof fn lemma_reference_has_holder(keys: Seq<Seq<char>>, blobs: Seq<Seq<u8>>, key: Seq<char>)
    requires
        keys.len() == blobs.len(),
        all_references(keys, blobs).contains(key),
    ensures
        exists|at: int|
            0 <= at < keys.len() && #[trigger] references_of(keys[at], blobs[at]).contains(key),
    decreases keys.len(),
{
    if keys.len() > 0 {
        let before = all_references(keys.drop_last(), blobs.drop_last());
        let last = references_of(keys.last(), blobs.last());
        let found = (before + last).index_of(key);
        if found < before.len() {
            assert(before[found] == key);
            lemma_reference_has_holder(keys.drop_last(), blobs.drop_last(), key);
            let at = choose|at: int|
                0 <= at < keys.len() - 1 && #[trigger] references_of(
                    keys.drop_last()[at],
                    blobs.drop_last()[at],
                ).contains(key);
            assert(references_of(keys[at], blobs[at]).contains(key));
        } else {
            assert(last[found - before.len()] == key);
            assert(references_of(keys[keys.len() - 1], blobs[keys.len() - 1]).contains(key));
        }
    }
}

/// Nothing that a stored asset refers to, and that the store lacks, is left
/// out: such a key is among the missing references of the store.
pub proof fn law_nothing_referred_to_is_left_out(raw_assets: RawAssets, at: int, key: Seq<char>)
    requires
        raw_assets.wf(),
        0 <= at < raw_assets.keys().len(),
        references_of(raw_assets.keys()[at], raw_assets.blobs()[at]).contains(key),
        !raw_assets.keys().contains(key),
    ensures
        missing_references(raw_assets.keys(), raw_assets.blobs(), raw_assets.keys()).contains(key),
{
    let named = all_references(raw_assets.keys(), raw_assets.blobs());
    lemma_all_references(raw_assets.keys(), raw_assets.blobs(), at, key);
    lemma_references_are_normal(raw_assets.keys()[at], raw_assets.blobs()[at], key);
    lemma_distinct(named);
    lemma_unknown(distinct(named), raw_assets.keys());
}

/// Every key among those that all assets refer to is in normal form.
pub proof fn lemma_all_references_are_normal(
    keys: Seq<Seq<char>>,
    blobs: Seq<Seq<u8>>,
    key: Seq<char>,
)
    requires
        keys.len() == blobs.len(),
        all_references(keys, blobs).contains(key),
    ensures
        is_normal(key),
{
    lemma_reference_has_holder(keys, blobs, key);
    let at = choose|at: int|
        0 <= at < keys.len() && #[trigger] references_of(keys[at], blobs[at]).contains(key);
    lemma_references_are_normal(keys[at], blobs[at], key);
}

/// The keys of `keys` whose normal form is not among `known`, in order.
pub open spec fn unknown(keys: Seq<Seq<char>>, known: Seq<Seq<char>>) -> Seq<Seq<char>> {
    keys.filter(|key: Seq<char>| !known.contains(normal_of(key)))
}

/// `unknown` keeps exactly the keys that are not known, and repeats none
/// if `keys` repeats none.
pub proof fn lemma_unknown(keys: Seq<Seq<char>>, known: Seq<Seq<char>>)
    ensures
        forall|key: Seq<char>|
            unknown(keys, known).contains(key) == (keys.contains(key) && !known.contains(
                normal_of(key),
            )),
        keys.no_duplicates() ==> unknown(keys, known).no_duplicates(),
    decreases keys.len(),
{
    reveal(Seq::filter);
    let kept = unknown(keys, known);
    if keys.len() > 0 {
        let shorter = keys.drop_last();
        let before = unknown(shorter, known);
        lemma_unknown(shorter, known);
        assert forall|key: Seq<char>|
            kept.contains(key) == (keys.contains(key) && !known.contains(normal_of(key))) by {
            if keys.contains(key) {
                let at = keys.index_of(key);
                if at < shorter.len() {
                    assert(shorter[at] == key);
                    assert(shorter.contains(key));
                }
            }
            if shorter.contains(key) {
                let at = shorter.index_of(key);
                assert(keys[at] == key);
            }
            if before.contains(key) {
                let at = before.index_of(key);
                assert(kept[at] == key);
            }
            if key == keys.last() {
                assert(keys[keys.len() - 1] == key);
                if !known.contains(normal_of(key)) {
                    assert(kept[before.len() as int] == key);
                }
            }
            if kept.contains(key) {
                let at = kept.index_of(key);
                if at < before.len() {
                    assert(before[at] == key);
                    assert(before.contains(key));
                }
            }
        }
        if keys.no_duplicates() {
            if shorter.contains(keys.last()) {
                let at = shorter.index_of(keys.last());
                assert(keys[at] == keys[keys.len() - 1]);
            }
        }
    }
}

/// The keys that the assets with the given keys and bytes refer to and that
/// are not among `known`, each once.
pub open spec fn missing_references(
    keys: Seq<Seq<char>>,
    blobs: Seq<Seq<u8>>,
    known: Seq<Seq<char>>,
) -> Seq<Seq<char>> {
    unknown(distinct(all_references(keys, blobs)), known)
}

/// Appends to `found` the keys that the assets of `scanned` refer to,
/// passing over those that are there already.
pub fn collect_references(scanned: &RawAssets, found: &mut Vec<String>)
    requires
        scanned.wf(),
    ensures
        texts(final(found)@) == with_keys(
            texts(old(found)@),
            all_references(scanned.keys(), scanned.blobs()),
        ),
{
    let ghost keys = scanned.keys();
    let ghost blobs = scanned.blobs();
    let ghost start = texts(found@);
    let count: usize = scanned.len();
    let mut i: usize = 0;
    proof {
        assert(keys.take(0) =~= Seq::<Seq<char>>::empty());
    }
    while i < count
        invariant
            i <= count == keys.len(),
            scanned.wf(),
            keys == scanned.keys(),
            blobs == scanned.blobs(),
            texts(found@) == with_keys(
                start,
                all_references(keys.take(i as int), blobs.take(i as int)),
            ),
        decreases count - i,
    {
        let named = references(scanned.key_at(i), scanned.bytes_at(i));
        let ghost seen = all_references(keys.take(i as int), blobs.take(i as int));
        let ghost before = texts(found@);
        proof {
            assert(keys.take(i + 1).drop_last() =~= keys.take(i as int));
            assert(blobs.take(i + 1).drop_last() =~= blobs.take(i as int));
            lemma_with_keys_concat(start, seen, texts(named@));
            assert(texts(named@).take(0) =~= Seq::<Seq<char>>::empty());
        }
        let mut j: usize = 0;
        while j < named.len()
            invariant
                j <= named.len(),
                texts(found@) == with_keys(before, texts(named@).take(j as int)),
            decreases named.len() - j,
        {
            proof {
                assert(texts(named@).take(j + 1).drop_last() =~= texts(named@).take(j as int));
            }
            push_new(found, named[j].clone());
            j += 1;
        }
        proof {
            assert(texts(named@).take(named@.len() as int) =~= texts(named@));
        }
        i += 1;
    }
    proof {
        assert(keys.take(keys.len() as int) =~= keys);
        assert(blobs.take(blobs.len() as int) =~= blobs);
    }
}

/// The keys of `found` that `known` does not hold, in order.
pub fn unknown_keys(found: &Vec<String>, known: &RawAssets) -> (missing: Vec<String>)
    requires
        known.wf(),
    ensures
        texts(missing@) == unknown(texts(found@), known.keys()),
{
    let ghost all = texts(found@);
    let ghost keep = |key: Seq<char>| !known.keys().contains(normal_of(key));
    let mut missing = no_keys();
    let mut k: usize = 0;
    proof {
        assert(all.take(0) =~= Seq::<Seq<char>>::empty());
        assert(all.take(0).filter(keep) =~= Seq::<Seq<char>>::empty()) by {
            reveal(Seq::filter);
        }
    }
    while k < found.len()
        invariant
            k <= found.len(),
            known.wf(),
            all == texts(found@),
            keep == |key: Seq<char>| !known.keys().contains(normal_of(key)),
            texts(missing@) == all.take(k as int).filter(keep),
        decreases found.len() - k,
    {
        proof {
            assert(all.take(k + 1).drop_last() =~= all.take(k as int));
            reveal(Seq::filter);
        }
        if !known.contains_key(found[k].as_str()) {
            let ghost before = missing@;
            missing.push(found[k].clone());
            proof {
                assert(texts(missing@) =~= texts(before).push(all[k as int]));
            }
        }
        k += 1;
    }
    proof {
        assert(all.take(all.len() as int) =~= all);
    }
    missing
}

/// The keys that the assets of `scanned` refer to and that `known` does not
/// hold, each once.
pub fn discover(scanned: &RawAssets, known: &RawAssets) -> (missing: Vec<String>)
    requires
        scanned.wf(),
        known.wf(),
    ensures
        texts(missing@) == missing_references(scanned.keys(), scanned.blobs(), known.keys()),
{
    let mut found = no_keys();
    collect_references(scanned, &mut found);
    unknown_keys(&found, known)
}

/// The keys that the assets of `raw_assets` refer to and that it does not
/// hold, each once.
pub fn get_dependencies(raw_assets: &RawAssets) -> (missing: Vec<String>)
    requires
        raw_assets.wf(),
    ensures
        texts(missing@) == missing_references(
            raw_assets.keys(),
            raw_assets.blobs(),
            raw_assets.keys(),
        ),
{
    discover(raw_assets, raw_assets)
}

} // verus!
