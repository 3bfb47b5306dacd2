use three_d_asset::path::{join, parent, tidy_path, trimmed_path, with_extension};
use three_d_asset::source::{
    base_path, classify, is_absolute_url, is_data_url, normalize, partition, resolve_against,
    Source,
};
use three_d_asset::text::{chars_of, contains, ends_with, find, matches_at, starts_with};

fn chars(s: &str) -> Vec<char> {
    s.chars().collect()
}

fn strings(items: &[&str]) -> Vec<String> {
    items.iter().map(|s| s.to_string()).collect()
}

#[test]
fn chars_of_gives_the_characters() {
    assert_eq!(chars_of("aé/"), vec!['a', 'é', '/']);
    assert_eq!(chars_of(""), Vec::<char>::new());
}

#[test]
fn substring_search_finds_the_leftmost_occurrence() {
    assert_eq!(find(&chars("abcabc"), &chars("bc")), Some(1));
    assert_eq!(find(&chars("abcabc"), &chars("")), Some(0));
    assert_eq!(find(&chars("abc"), &chars("abcd")), None);
    assert_eq!(find(&chars("abc"), &chars("ca")), None);
    assert_eq!(find(&chars(""), &chars("")), Some(0));
    assert!(contains(&chars("dir/tex.jpeg"), &chars("tex.jp")));
    assert!(!contains(&chars("tex.jpeg"), &chars("unrelated.jp")));
    assert!(matches_at(&chars("abc"), &chars("bc"), 1));
    assert!(!matches_at(&chars("abc"), &chars("bc"), 2));
    assert!(!matches_at(&chars("abc"), &chars("bc"), 7));
    assert!(starts_with(&chars("data:x"), &chars("data:")));
    assert!(!starts_with(&chars("dat"), &chars("data:")));
    assert!(ends_with(&chars("a.jpg"), &chars(".jpg")));
    assert!(!ends_with(&chars("jpg"), &chars(".jpg")));
}

#[test]
fn data_urls_begin_with_data_colon() {
    assert!(is_data_url("data:image/png;base64,AAAA"));
    assert!(is_data_url("data:"));
    assert!(!is_data_url("Data:x"));
    assert!(!is_data_url("dat"));
    assert!(!is_data_url("a/data:x"));
}

#[test]
fn absolute_urls_hold_a_scheme_mark_or_begin_with_two_slashes() {
    assert!(is_absolute_url("https://example.com/a.png"));
    assert!(is_absolute_url("//cdn.example.com/a.png"));
    assert!(is_absolute_url("a://b"));
    assert!(!is_absolute_url("://example.com"));
    assert!(!is_absolute_url("://a://b"));
    assert!(!is_absolute_url("assets/a.png"));
    assert!(!is_absolute_url("/abs/a.png"));
    assert!(!is_absolute_url(""));
    assert!(is_absolute_url("///x"));
}

#[test]
fn every_key_has_one_source() {
    assert_eq!(classify("data:text/plain,https://x"), Source::DataUrl);
    assert_eq!(classify("http://host/a"), Source::Url);
    assert_eq!(classify("//host/a"), Source::Url);
    assert_eq!(classify("models/a.obj"), Source::LocalPath);
    assert_eq!(classify("C:/models/a.obj"), Source::LocalPath);
    assert_eq!(classify(""), Source::LocalPath);
}

#[test]
fn partition_sorts_by_source_and_drops_repetitions() {
    let batch = partition(&strings(&[
        "a.obj",
        "https://h/b.png",
        "data:,x",
        "a.obj",
        "c.mtl",
        "https://h/b.png",
        "//h/d.png",
    ]));
    assert_eq!(batch.local_paths, strings(&["a.obj", "c.mtl"]));
    assert_eq!(batch.urls, strings(&["https://h/b.png", "//h/d.png"]));
    assert_eq!(batch.data_urls, strings(&["data:,x"]));
    let none = partition(&Vec::new());
    assert!(none.local_paths.is_empty() && none.urls.is_empty() && none.data_urls.is_empty());
}

#[test]
fn parent_is_what_stands_before_the_last_separator() {
    assert_eq!(parent("dir/scene.gltf"), "dir");
    assert_eq!(parent("a/b/scene.gltf"), "a/b");
    assert_eq!(parent("scene.gltf"), "");
    assert_eq!(parent(""), "");
    assert_eq!(parent("/scene.gltf"), "/");
    assert_eq!(parent("//scene.gltf"), "/");
    assert_eq!(parent("dir//scene.gltf"), "dir");
    assert_eq!(parent("dir/"), "dir");
    assert_eq!(parent("https://host/a/scene.gltf"), "https://host/a");
}

#[test]
fn join_reads_a_relative_path_in_a_directory() {
    assert_eq!(join("dir", "tex.png"), "dir/tex.png");
    assert_eq!(join("dir/", "tex.png"), "dir/tex.png");
    assert_eq!(join("", "tex.png"), "tex.png");
    assert_eq!(join("dir", "/abs/tex.png"), "/abs/tex.png");
    assert_eq!(join("/", "tex.png"), "/tex.png");
    assert_eq!(join("dir", ""), "dir/");
    assert_eq!(join("https://host/a", "b/tex.png"), "https://host/a/b/tex.png");
}

#[test]
fn extension_needs_a_file_name_before_the_dot() {
    assert!(with_extension("scene.gltf", "gltf"));
    assert!(with_extension("dir/scene.glb", "glb"));
    assert!(!with_extension("scene.gltf", "glb"));
    assert!(!with_extension(".gltf", "gltf"));
    assert!(!with_extension("dir/.gltf", "gltf"));
    assert!(!with_extension("gltf", "gltf"));
    assert!(!with_extension("scene.GLTF", "gltf"));
    assert!(!with_extension("scene.gltf?x=1", "gltf"));
    assert!(with_extension("a.b.obj", "obj"));
}

#[test]
fn base_path_is_the_directory_of_the_document() {
    assert_eq!(base_path("https://host/app/index.html"), "https://host/app");
    assert_eq!(base_path("https://host/app/"), "https://host/app/");
}

#[test]
fn local_paths_are_read_against_the_base() {
    let keys = resolve_against(
        "https://host/app",
        &strings(&["a.obj", "https://cdn/b.png", "data:,x", "/c.png"]),
    );
    assert_eq!(
        keys,
        strings(&["https://host/app/a.obj", "https://cdn/b.png", "data:,x", "/c.png"])
    );
}

#[test]
fn a_local_path_has_a_tidy_normal_form() {
    assert_eq!(tidy_path("dir//a.bin"), "dir/a.bin");
    assert_eq!(tidy_path("dir/./a.bin"), "dir/a.bin");
    assert_eq!(tidy_path("dir/.//./a.bin"), "dir/a.bin");
    assert_eq!(tidy_path("/./a"), "/a");
    assert_eq!(tidy_path("//a"), "/a");
    assert_eq!(tidy_path("./a"), "./a");
    assert_eq!(tidy_path("a/../b"), "a/../b");
    assert_eq!(tidy_path("a/.b/c."), "a/.b/c.");
    assert_eq!(tidy_path("a/."), "a/.");
    assert_eq!(tidy_path("a/"), "a/");
    assert_eq!(tidy_path(""), "");
    assert_eq!(trimmed_path("a//b/./"), "a/b");
    assert_eq!(normalize("dir//a.bin"), "dir/a.bin");
    assert_eq!(normalize("dir/a/"), "dir/a");
    assert_eq!(normalize("dir/a/."), "dir/a");
    assert_eq!(normalize("dir/a//./"), "dir/a");
    assert_eq!(normalize("/"), "/");
    assert_eq!(normalize("/."), "/");
    assert_eq!(normalize("./"), ".");
    assert_eq!(normalize("."), ".");
    assert_eq!(normalize("a/.."), "a/..");
    assert_eq!(normalize(""), "");
    assert_eq!(normalize("https://host//a/./b"), "https://host//a/./b");
    assert_eq!(normalize("//host/a//b"), "//host/a//b");
    assert_eq!(normalize("data:text/plain,a//b/./c"), "data:text/plain,a//b/./c");
    for key in ["dir//a.bin", "/./a", "a/././b", "a/./", "/.", "https://h//a", "data:,//"] {
        assert_eq!(normalize(&normalize(key)), normalize(key));
    }
}
