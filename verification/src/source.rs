//! Where the bytes of a key come from: the key itself, a network, or a
//! local file.

use vstd::prelude::*;
use crate::key_list::{distinct, no_keys, push_new, texts};
use crate::path::{
    join, joined, lemma_tidy_is_tidy, lemma_tidy_of_tidy, lemma_trimmed_tidy, parent, parent_of,
    separator, tidy, trimmed, trimmed_path,
};
use crate::text::{
    chars_of, ends_with, find, has_prefix, has_substring, has_suffix, starts_with,
};

verus! {

/// The kind of source of a key.
#[derive(Debug, Copy, Clone, PartialEq, Eq)]
pub enum Source {
    /// The key is a data URL and holds its bytes itself.
    DataUrl,
    /// The key is an absolute URL.
    Url,
    /// The key is a path, relative to a base location or absolute.
    LocalPath,
}

/// `path` is a data URL: it begins with `data:`.
pub open spec fn names_data_url(path: Seq<char>) -> bool {
    has_prefix(path, "data:"@)
}

/// `path` is an absolute URL: it holds `://`, and not at its very start, or
/// it begins with `//`.
pub open spec fn names_absolute_url(path: Seq<char>) -> bool {
    ||| has_substring(path, "://"@) && !has_prefix(path, "://"@)
    ||| has_prefix(path, "//"@)
}

/// The kind of source of `path`. A data URL is one even where it holds
/// `://`.
pub open spec fn source_of(path: Seq<char>) -> Source {
    if names_data_url(path) {
        Source::DataUrl
    } else if names_absolute_url(path) {
        Source::Url
    } else {
        Source::LocalPath
    }
}

/// The normal form of a key, by which keys are compared: a local path is
/// written tidily and trimmed, a data URL or an absolute URL stands as it
/// is.
pub open spec fn normal_of(key: Seq<char>) -> Seq<char> {
    if source_of(key) == Source::LocalPath {
        trimmed(tidy(key))
    } else {
        key
    }
}

/// `key` is in normal form.
pub open spec fn is_normal(key: Seq<char>) -> bool {
    normal_of(key) == key
}

/// The normal forms of a list of keys.
pub open spec fn normals(keys: Seq<Seq<char>>) -> Seq<Seq<char>> {
    Seq::new(keys.len(), |i: int| normal_of(keys[i]))
}

/// The normal form of a key is in normal form.
pub proof fn lemma_normal_is_normal(key: Seq<char>)
    ensures
        is_normal(normal_of(key)),
{
    if source_of(key) == Source::LocalPath {
        lemma_tidy_is_tidy(key);
        lemma_trimmed_tidy(tidy(key));
        lemma_tidy_of_tidy(trimmed(tidy(key)));
    }
}

/// The empty key is in normal form.
pub proof fn lemma_empty_key_is_normal()
    ensures
        normal_of(Seq::<char>::empty()) == Seq::<char>::empty(),
{
}

/// Taking the first keys and taking their normal forms come to the same.
pub proof fn lemma_normals_take(keys: Seq<Seq<char>>, n: int)
    requires
        0 <= n <= keys.len(),
    ensures
        normals(keys.take(n)) == normals(keys).take(n),
        n < keys.len() ==> normals(keys.take(n + 1)) == normals(keys.take(n)).push(
            normal_of(keys[n]),
        ),
{
    assert(normals(keys.take(n)) =~= normals(keys).take(n));
    if n < keys.len() {
        assert(normals(keys.take(n + 1)) =~= normals(keys.take(n)).push(normal_of(keys[n])));
    }
}

/// The normal form of `key`.
pub fn normalize(key: &str) -> (normal: String)
    ensures
        normal@ == normal_of(key@),
        is_normal(normal@),
{
    proof {
        lemma_normal_is_normal(key@);
    }
    match classify(key) {
        Source::LocalPath => trimmed_path(key),
        _ => String::from_str(key),
    }
}

/// Decides whether `path` is a data URL.
pub fn is_data_url(path: &str) -> (found: bool)
    ensures
        found == names_data_url(path@),
{
    let chars = chars_of(path);
    let prefix = chars_of("data:");
    starts_with(&chars, &prefix)
}

/// Decides whether `path` is an absolute URL.
pub fn is_absolute_url(path: &str) -> (found: bool)
    ensures
        found == names_absolute_url(path@),
{
    let chars = chars_of(path);
    let scheme_mark = chars_of("://");
    let slashes = chars_of("//");
    let after_scheme = match find(&chars, &scheme_mark) {
        Some(at) => at > 0,
        None => false,
    };
    after_scheme || starts_with(&chars, &slashes)
}

/// The kind of source of `path`.
pub fn classify(path: &str) -> (source: Source)
    ensures
        source == source_of(path@),
{
    if is_data_url(path) {
        Source::DataUrl
    } else if is_absolute_url(path) {
        Source::Url
    } else {
        Source::LocalPath
    }
}

/// The keys of one fetch round, by the kind of their source. No key occurs
/// twice.
#[derive(Debug)]
pub struct LoadBatch {
    /// The data URLs.
    pub data_urls: Vec<String>,
    /// The absolute URLs.
    pub urls: Vec<String>,
    /// The local paths.
    pub local_paths: Vec<String>,
}

/// The keys of `keys` whose source is `source`.
pub open spec fn of_source(keys: Seq<Seq<char>>, source: Source) -> Seq<Seq<char>> {
    keys.filter(|key: Seq<char>| source_of(key) == source)
}

impl LoadBatch {
    /// The batch holds each key of `keys` once, in the list of its source
    /// and in the order of `keys`.
    pub open spec fn partitions(&self, keys: Seq<Seq<char>>) -> bool {
        &&& texts(self.data_urls@) == distinct(of_source(keys, Source::DataUrl))
        &&& texts(self.urls@) == distinct(of_source(keys, Source::Url))
        &&& texts(self.local_paths@) == distinct(of_source(keys, Source::LocalPath))
    }

    /// The number of keys in the batch.
    pub open spec fn count(&self) -> nat {
        self.data_urls@.len() + self.urls@.len() + self.local_paths@.len()
    }
}

/// Sorts the normal forms of `paths` by the kind of their source, dropping
/// repetitions.
pub fn partition(paths: &Vec<String>) -> (batch: LoadBatch)
    ensures
        batch.partitions(normals(texts(paths@))),
{
    let mut batch = LoadBatch { data_urls: no_keys(), urls: no_keys(), local_paths: no_keys() };
    let ghost keys = normals(texts(paths@));
    let mut i: usize = 0;
    proof {
        assert(keys.take(0) =~= Seq::<Seq<char>>::empty());
        lemma_of_source_empty();
    }
    while i < paths.len()
        invariant
            i <= paths.len(),
            keys == normals(texts(paths@)),
            batch.partitions(keys.take(i as int)),
        decreases paths.len() - i,
    {
        proof {
            lemma_of_source_step(keys, i as int, Source::DataUrl);
            lemma_of_source_step(keys, i as int, Source::Url);
            lemma_of_source_step(keys, i as int, Source::LocalPath);
            assert(keys[i as int] == normal_of(paths@[i as int]@));
        }
        let key = normalize(paths[i].as_str());
        match classify(key.as_str()) {
            Source::DataUrl => push_new(&mut batch.data_urls, key),
            Source::Url => push_new(&mut batch.urls, key),
            Source::LocalPath => push_new(&mut batch.local_paths, key),
        }
        i += 1;
    }
    proof {
        assert(keys.take(keys.len() as int) =~= keys);
    }
    batch
}

/// No key of an empty list has any source.
proof fn lemma_of_source_empty()
    ensures
        forall|source: Source|
            distinct(#[trigger] of_source(Seq::<Seq<char>>::empty(), source)) == Seq::<
                Seq<char>,
            >::empty(),
{
    assert forall|source: Source|
        distinct(#[trigger] of_source(Seq::<Seq<char>>::empty(), source)) == Seq::<
            Seq<char>,
        >::empty() by {
        reveal(Seq::filter);
    }
}

/// How the keys of one source grow when the list of keys grows by one.
proof fn lemma_of_source_step(keys: Seq<Seq<char>>, n: int, source: Source)
    requires
        0 <= n < keys.len(),
    ensures
        distinct(of_source(keys.take(n + 1), source)) == if source_of(keys[n]) != source {
            distinct(of_source(keys.take(n), source))
        } else if distinct(of_source(keys.take(n), source)).contains(keys[n]) {
            distinct(of_source(keys.take(n), source))
        } else {
            distinct(of_source(keys.take(n), source)).push(keys[n])
        },
{
    let longer = keys.take(n + 1);
    assert(longer.drop_last() =~= keys.take(n));
    assert(longer.last() == keys[n]);
    reveal(Seq::filter);
    if source_of(keys[n]) == source {
        let kept = of_source(longer, source);
        assert(kept == of_source(keys.take(n), source).push(keys[n]));
        assert(kept.drop_last() =~= of_source(keys.take(n), source));
    }
}

/// The base location of the document at `url`: the URL itself if it ends
/// with a separator, else its directory.
pub open spec fn base_of(url: Seq<char>) -> Seq<char> {
    if has_suffix(url, seq![separator()]) {
        url
    } else {
        parent_of(url)
    }
}

/// The base location of the document at `document_url`, against which
/// local paths are read where there is no file system.
pub fn base_path(document_url: &str) -> (base: String)
    ensures
        base@ == base_of(document_url@),
{
    let chars = chars_of(document_url);
    let slash = chars_of("/");
    proof {
        reveal_strlit("/");
        assert("/"@ =~= seq![separator()]);
    }
    if ends_with(&chars, &slash) {
        String::from_str(document_url)
    } else {
        parent(document_url)
    }
}

/// The key under which `path` is fetched where local paths are read
/// against `base`: a local path is joined to `base`, a data URL or an
/// absolute URL stays.
pub open spec fn key_against(base: Seq<char>, path: Seq<char>) -> Seq<char> {
    if source_of(path) == Source::LocalPath {
        joined(base, path)
    } else {
        path
    }
}

/// The keys under which `paths` are fetched where local paths are read
/// against `base`, in the order of `paths`.
pub fn resolve_against(base: &str, paths: &Vec<String>) -> (keys: Vec<String>)
    ensures
        keys@.len() == paths@.len(),
        forall|i: int| 0 <= i < keys@.len() ==> (#[trigger] keys@[i])@ == key_against(base@, paths@[i]@),
{
    let mut keys: Vec<String> = Vec::new();
    let mut i: usize = 0;
    while i < paths.len()
        invariant
            i <= paths.len(),
            keys@.len() == i,
            forall|k: int| 0 <= k < i ==> (#[trigger] keys@[k])@ == key_against(base@, paths@[k]@),
        decreases paths.len() - i,
    {
        let path = paths[i].as_str();
        let key = match classify(path) {
            Source::LocalPath => join(base, path),
            _ => String::from_str(path),
        };
        keys.push(key);
        i += 1;
    }
    keys
}

} // verus!
