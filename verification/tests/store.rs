use three_d_asset::{deserialize, Deserialize, Error, Loaded, RawAssets};

struct Length(usize);

impl Deserialize for Length {
    fn deserialize(path: &str, raw_assets: &mut RawAssets) -> Result<Self, Error> {
        let bytes = raw_assets.remove(path)?;
        Ok(Length(bytes.len()))
    }
}

fn keys(assets: &RawAssets) -> Vec<String> {
    assets.iter().into_iter().map(|(key, _)| key.to_string()).collect()
}

#[test]
fn new_store_is_empty() {
    let assets = RawAssets::new();
    assert!(assets.is_empty());
    assert_eq!(assets.len(), 0);
    assert!(assets.iter().is_empty());
    assert!(RawAssets::default().is_empty());
}

#[test]
fn insert_then_get_returns_the_bytes() {
    let mut assets = RawAssets::new();
    assets.insert("a.bin", vec![1, 2, 3]);
    assert_eq!(assets.get("a.bin").unwrap(), &[1, 2, 3]);
    assert!(assets.contains_key("a.bin"));
    assert!(!assets.contains_key("a"));
    assert_eq!(assets.len(), 1);
}

#[test]
fn insert_overwrites_and_keeps_the_position() {
    let mut assets = RawAssets::new();
    assets.insert("a.bin", vec![1]);
    assets.insert("b.bin", vec![2]);
    assets.insert("a.bin", vec![3, 4]);
    assert_eq!(assets.len(), 2);
    assert_eq!(keys(&assets), vec!["a.bin", "b.bin"]);
    assert_eq!(assets.get("a.bin").unwrap(), &[3, 4]);
    assert_eq!(assets.get("b.bin").unwrap(), &[2]);
}

#[test]
fn remove_hands_out_the_bytes_and_forgets_the_key() {
    let mut assets = RawAssets::new();
    assets.insert("a.bin", vec![1]);
    assets.insert("b.bin", vec![2]);
    assets.insert("c.bin", vec![3]);
    assert_eq!(assets.remove("b.bin").unwrap(), vec![2]);
    assert!(!assets.contains_key("b.bin"));
    assert_eq!(keys(&assets), vec!["a.bin", "c.bin"]);
    assert_eq!(
        assets.remove("b.bin"),
        Err(Error::NotLoaded("b.bin".to_string()))
    );
    assert_eq!(assets.len(), 2);
}

#[test]
fn alias_resolution_jpg_and_jpeg() {
    let mut assets = RawAssets::new();
    assets.insert("tex.jpeg", vec![7, 8, 9]);
    assert_eq!(assets.get("tex.jpg").unwrap(), &[7, 8, 9]);
    assert_eq!(assets.get("tex.jpeg").unwrap(), &[7, 8, 9]);
    assert_eq!(
        assets.get("unrelated.jpg"),
        Err(Error::NotLoaded("unrelated.jpg".to_string()))
    );

    let mut other = RawAssets::new();
    other.insert("dir/tex.jpg", vec![4, 5]);
    assert_eq!(other.get("tex.jpeg").unwrap(), &[4, 5]);
    assert_eq!(other.match_path("tex.jpeg").unwrap(), "dir/tex.jpg");
    assert_eq!(other.remove("tex.jpeg").unwrap(), vec![4, 5]);
    assert!(other.is_empty());
}

#[test]
fn a_failed_request_names_the_key_that_was_asked_for() {
    let assets = RawAssets::new();
    assert_eq!(
        assets.get("photo.jpeg"),
        Err(Error::NotLoaded("photo.jpeg".to_string()))
    );
    assert_eq!(
        assets.get("photo.png"),
        Err(Error::NotLoaded("photo.png".to_string()))
    );
    assert_eq!(three_d_asset::raw_assets::probe("a.jpeg"), "a.jp");
    assert_eq!(three_d_asset::raw_assets::probe("a.jpg"), "a.jp");
    assert_eq!(three_d_asset::raw_assets::probe("a.jpgx"), "a.jpgx");
    assert_eq!(three_d_asset::raw_assets::probe(".jpg"), ".jp");
}

#[test]
fn an_exact_match_wins_over_an_earlier_substring_match() {
    let mut assets = RawAssets::new();
    assets.insert("dir/cube.obj", vec![1]);
    assets.insert("cube.obj", vec![2]);
    assert_eq!(assets.get("cube.obj").unwrap(), &[2]);
    assert_eq!(assets.get("ube.ob").unwrap(), &[1]);
    assert_eq!(assets.match_path("ube.ob").unwrap(), "dir/cube.obj");
}

#[test]
fn a_substring_probe_takes_the_first_key_in_store_order() {
    let mut assets = RawAssets::new();
    assets.insert("scene.gltf", vec![1]);
    assets.insert("a.png", vec![2]);
    assets.insert("b.png", vec![3]);
    assert_eq!(assets.get(".png").unwrap(), &[2]);
    assert_eq!(assets.get("").unwrap(), &[1]);
    assert_eq!(assets.remove(".png").unwrap(), vec![2]);
    assert_eq!(assets.get(".png").unwrap(), &[3]);
}

#[test]
fn extend_moves_every_entry_and_later_bytes_win() {
    let mut assets = RawAssets::new();
    assets.insert("a", vec![1]);
    assets.insert("b", vec![2]);
    let mut other = RawAssets::new();
    other.insert("c", vec![3]);
    other.insert("a", vec![4]);
    assets.extend(other).insert("d", vec![5]);
    assert_eq!(keys(&assets), vec!["a", "b", "c", "d"]);
    assert_eq!(assets.get("a").unwrap(), &[4]);
    assert_eq!(assets.get("b").unwrap(), &[2]);
    assert_eq!(assets.get("c").unwrap(), &[3]);
    assert_eq!(assets.get("d").unwrap(), &[5]);
}

#[test]
fn iter_yields_every_entry_once_and_can_be_repeated() {
    let mut assets = RawAssets::new();
    assets.insert("x", vec![1]);
    assets.insert("y", vec![]);
    let first: Vec<(String, Vec<u8>)> = assets
        .iter()
        .into_iter()
        .map(|(k, v)| (k.to_string(), v.to_vec()))
        .collect();
    let second: Vec<(String, Vec<u8>)> = assets
        .iter()
        .into_iter()
        .map(|(k, v)| (k.to_string(), v.to_vec()))
        .collect();
    assert_eq!(first, second);
    assert_eq!(
        first,
        vec![("x".to_string(), vec![1]), ("y".to_string(), vec![])]
    );
    assert_eq!(assets.key_at(1), "y");
    assert_eq!(assets.bytes_at(0), &[1]);
}

#[test]
fn deserialize_hands_the_bytes_under_the_empty_key() {
    let decoded: Length = deserialize(vec![1, 2, 3]).unwrap();
    assert_eq!(decoded.0, 3);
}

#[test]
fn store_deserialize_calls_the_format() {
    let mut assets = RawAssets::new();
    assets.insert("a.bin", vec![0; 5]);
    let decoded: Length = assets.deserialize("a.bin").unwrap();
    assert_eq!(decoded.0, 5);
    assert!(assets.is_empty());
    let missing: Result<Length, Error> = assets.deserialize("a.bin");
    assert_eq!(missing.err(), Some(Error::NotLoaded("a.bin".to_string())));
}

#[test]
fn loaded_resolves_paths_as_the_store_does() {
    let mut loaded = Loaded::new();
    loaded.insert_bytes("dir/tex.jpeg", vec![1, 2]);
    loaded.insert_bytes("model.obj", vec![3]);
    assert_eq!(loaded.get_bytes("tex.jpg").unwrap(), &[1, 2]);
    assert_eq!(loaded.get_bytes("model.obj").unwrap(), &[3]);
    assert_eq!(
        loaded.get_bytes("other.jpg"),
        Err(Error::NotLoaded("other.jpg".to_string()))
    );
    let items: Vec<String> = loaded.iter().into_iter().map(|(k, _)| k.to_string()).collect();
    assert_eq!(items, vec!["dir/tex.jpeg", "model.obj"]);
    assert_eq!(loaded.remove_bytes(".obj").unwrap(), vec![3]);
    assert_eq!(
        loaded.remove_bytes(".obj"),
        Err(Error::NotLoaded(".obj".to_string()))
    );
    let decoded: Length = loaded.deserialize("tex.jpeg").unwrap();
    assert_eq!(decoded.0, 2);
    assert!(Loaded::default().iter().is_empty());
}

#[test]
fn a_key_is_found_under_another_spelling_of_its_path() {
    let mut assets = RawAssets::new();
    assets.insert("dir//a.bin", vec![1]);
    assert_eq!(keys(&assets), vec!["dir/a.bin"]);
    assert_eq!(assets.get("dir/a.bin").unwrap(), &[1]);
    assert_eq!(assets.get("dir/./a.bin").unwrap(), &[1]);
    assert!(assets.contains_key("dir///a.bin"));
    assets.insert("dir/./a.bin", vec![2]);
    assert_eq!(assets.len(), 1);
    assert_eq!(assets.get("dir//a.bin").unwrap(), &[2]);
    assert_eq!(
        assets.get("dir//b.bin"),
        Err(Error::NotLoaded("dir//b.bin".to_string()))
    );
    assert_eq!(assets.remove("dir/.//a.bin").unwrap(), vec![2]);
    assert!(assets.is_empty());
    assets.insert("https://h//a", vec![3]);
    assert!(!assets.contains_key("https://h/a"));
    assert!(assets.contains_key("https://h//a"));
}
