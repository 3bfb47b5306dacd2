use std::collections::HashMap;
use three_d_asset::fetch::{collect_from_disk, collect_from_network, Fetched};
use three_d_asset::loader::{assemble_round, LoadState};
use three_d_asset::{Deserialize, Error, RawAssets};

const OBJ_A: &str = "mtllib b.mtl\no tri\nv 0 0 0\nv 1 0 0\nv 0 1 0\nf 1 2 3\n";

const OBJ_D: &str = "mtllib b.mtl\no other\nv 0 0 0\nv 2 0 0\nv 0 2 0\nf 1 2 3\n";

fn mtl(map: &str) -> Vec<u8> {
    format!(
        "newmtl m\nNs 10.0\nKa 1 1 1\nKd 1 0 0\nKs 0 0 0\nd 1.0\nillum 2\nmap_Kd {}\n",
        map
    )
    .into_bytes()
}

fn strings(items: &[&str]) -> Vec<String> {
    items.iter().map(|s| s.to_string()).collect()
}

/// A source of local files that counts how often each key is read.
struct Disk {
    files: HashMap<String, Vec<u8>>,
    reads: HashMap<String, usize>,
}

impl Disk {
    fn new(files: &[(&str, Vec<u8>)]) -> Self {
        Disk {
            files: files.iter().map(|(k, v)| (k.to_string(), v.clone())).collect(),
            reads: HashMap::new(),
        }
    }

    fn read(&mut self, keys: &[String]) -> Vec<Fetched> {
        keys.iter()
            .map(|key| {
                *self.reads.entry(key.clone()).or_insert(0) += 1;
                Fetched {
                    key: key.clone(),
                    outcome: self
                        .files
                        .get(key)
                        .cloned()
                        .ok_or_else(|| "No such file or directory (os error 2)".to_string()),
                }
            })
            .collect()
    }
}

fn load(disk: &mut Disk, keys: &[&str]) -> Result<(RawAssets, usize), Error> {
    let mut state = LoadState::new(&strings(keys));
    while !state.is_done() {
        let batch = state.batch();
        assert!(batch.urls.is_empty());
        let from_disk = collect_from_disk(disk.read(&batch.local_paths));
        let round = assemble_round(batch.data_urls, Ok(RawAssets::new()), from_disk)?;
        state.advance(round)?;
    }
    let rounds = state.round_count();
    Ok((state.finish(), rounds))
}

fn entries(assets: &RawAssets) -> Vec<(String, Vec<u8>)> {
    assets.iter().into_iter().map(|(k, v)| (k.to_string(), v.to_vec())).collect()
}

fn sorted_keys(assets: &RawAssets) -> Vec<String> {
    let mut keys: Vec<String> = assets.iter().into_iter().map(|(k, _)| k.to_string()).collect();
    keys.sort();
    keys
}

#[test]
fn a_chain_of_three_resolves_in_three_rounds() {
    let mut disk = Disk::new(&[
        ("a.obj", OBJ_A.as_bytes().to_vec()),
        ("b.mtl", mtl("c.png")),
        ("c.png", vec![1, 2, 3]),
    ]);
    let (assets, rounds) = load(&mut disk, &["a.obj"]).unwrap();
    assert_eq!(rounds, 3);
    assert_eq!(sorted_keys(&assets), strings(&["a.obj", "b.mtl", "c.png"]));
    assert_eq!(assets.get("c.png").unwrap(), &[1, 2, 3]);
}

#[test]
fn a_cycle_of_references_ends() {
    let mut disk = Disk::new(&[("a.obj", OBJ_A.as_bytes().to_vec()), ("b.mtl", mtl("a.obj"))]);
    let (assets, rounds) = load(&mut disk, &["a.obj"]).unwrap();
    assert_eq!(rounds, 2);
    assert_eq!(sorted_keys(&assets), strings(&["a.obj", "b.mtl"]));
    assert_eq!(disk.reads["a.obj"], 1);
    assert_eq!(disk.reads["b.mtl"], 1);
}

#[test]
fn a_shared_dependency_is_fetched_once() {
    let mut disk = Disk::new(&[
        ("a.obj", OBJ_A.as_bytes().to_vec()),
        ("d.obj", OBJ_D.as_bytes().to_vec()),
        ("b.mtl", mtl("c.png")),
        ("c.png", vec![7]),
    ]);
    let (assets, rounds) = load(&mut disk, &["a.obj", "d.obj"]).unwrap();
    assert_eq!(disk.reads["b.mtl"], 1);
    assert_eq!(disk.reads["c.png"], 1);
    assert_eq!(disk.reads["a.obj"], 1);
    assert_eq!(rounds, 3);
    assert_eq!(
        sorted_keys(&assets),
        strings(&["a.obj", "b.mtl", "c.png", "d.obj"])
    );
}

#[test]
fn a_key_asked_for_twice_is_fetched_once() {
    let mut disk = Disk::new(&[("x.bin", vec![1])]);
    let (assets, rounds) = load(&mut disk, &["x.bin", "x.bin"]).unwrap();
    assert_eq!(disk.reads["x.bin"], 1);
    assert_eq!(rounds, 1);
    assert_eq!(assets.len(), 1);
}

#[test]
fn loading_the_same_keys_twice_gives_the_same_store() {
    let files = [
        ("a.obj", OBJ_A.as_bytes().to_vec()),
        ("b.mtl", mtl("c.png")),
        ("c.png", vec![1, 2, 3]),
    ];
    let (first, _) = load(&mut Disk::new(&files), &["a.obj", "data:,Hi"]).unwrap();
    let (second, _) = load(&mut Disk::new(&files), &["a.obj", "data:,Hi"]).unwrap();
    assert_eq!(entries(&first), entries(&second));
    assert_eq!(first.get("data:,Hi").unwrap(), b"Hi");
}

#[test]
fn the_order_of_arrival_does_not_change_what_is_loaded() {
    let files = [
        ("a.obj", OBJ_A.as_bytes().to_vec()),
        ("d.obj", OBJ_D.as_bytes().to_vec()),
        ("b.mtl", mtl("c.png")),
        ("c.png", vec![1, 2, 3]),
        ("e.bin", vec![4]),
    ];
    let mut disk = Disk::new(&files);
    let mut forward = LoadState::new(&strings(&["a.obj", "d.obj", "e.bin"]));
    let mut backward = LoadState::new(&strings(&["e.bin", "d.obj", "a.obj"]));
    while !forward.is_done() {
        let batch = forward.batch();
        forward
            .advance(collect_from_disk(disk.read(&batch.local_paths)).unwrap())
            .unwrap();
    }
    while !backward.is_done() {
        let paths = backward.batch().local_paths;
        backward.advance(collect_from_disk(disk.read(&paths)).unwrap()).unwrap();
    }
    assert_eq!(forward.round_count(), backward.round_count());
    let mut first = entries(forward.assets());
    let mut second = entries(backward.assets());
    assert_ne!(first, second);
    first.sort();
    second.sort();
    assert_eq!(first, second);
}

#[test]
fn a_missing_file_fails_the_load() {
    let mut disk = Disk::new(&[("present.txt", vec![1])]);
    let failed = load(&mut disk, &["present.txt", "missing.txt"]);
    assert_eq!(
        failed.err(),
        Some(Error::FailedLoading(
            "missing.txt".to_string(),
            "No such file or directory (os error 2)".to_string()
        ))
    );
}

#[test]
fn a_missing_dependency_fails_the_load() {
    let mut disk = Disk::new(&[("a.obj", OBJ_A.as_bytes().to_vec())]);
    let failed = load(&mut disk, &["a.obj"]);
    assert_eq!(
        failed.err(),
        Some(Error::FailedLoading(
            "b.mtl".to_string(),
            "No such file or directory (os error 2)".to_string()
        ))
    );
}

#[test]
fn a_malformed_data_url_fails_the_load() {
    let mut disk = Disk::new(&[("a.bin", vec![1])]);
    let failed = load(&mut disk, &["a.bin", "data:nocomma"]);
    assert_eq!(
        failed.err(),
        Some(Error::FailedParsingDataUrl(
            "data:nocomma".to_string(),
            "NoComma".to_string()
        ))
    );
}

#[test]
fn the_network_failure_is_reported_before_the_disk_failure() {
    let network = Error::FailedLoadingUrl("https://h/a".to_string(), "timed out".to_string());
    let disk = Error::FailedLoading("a".to_string(), "denied".to_string());
    assert_eq!(
        assemble_round(Vec::new(), Err(network), Err(disk)).err(),
        Some(Error::FailedLoadingUrl("https://h/a".to_string(), "timed out".to_string()))
    );
    let disk = Error::FailedLoading("a".to_string(), "denied".to_string());
    assert_eq!(
        assemble_round(strings(&["data:bad"]), Ok(RawAssets::new()), Err(disk)).err(),
        Some(Error::FailedLoading("a".to_string(), "denied".to_string()))
    );
}

#[test]
fn a_round_holds_network_disk_and_data_url_assets_in_that_order() {
    let mut from_network = RawAssets::new();
    from_network.insert("https://h/a", vec![1]);
    from_network.insert("both", vec![2]);
    let mut from_disk = RawAssets::new();
    from_disk.insert("both", vec![3]);
    from_disk.insert("b", vec![4]);
    let round =
        assemble_round(strings(&["data:,c"]), Ok(from_network), Ok(from_disk)).unwrap();
    assert_eq!(
        entries(&round),
        vec![
            ("https://h/a".to_string(), vec![1]),
            ("both".to_string(), vec![3]),
            ("b".to_string(), vec![4]),
            ("data:,c".to_string(), vec![99]),
        ]
    );
}

#[test]
fn a_round_that_lacks_a_key_of_the_batch_is_refused() {
    let mut state = LoadState::new(&strings(&["a", "b", "c"]));
    let mut round = RawAssets::new();
    round.insert("a", vec![1]);
    round.insert("c", vec![3]);
    assert_eq!(state.advance(round), Err(Error::NotLoaded("b".to_string())));
    assert_eq!(state.pending_keys(), &strings(&["a", "b", "c"]));
    assert_eq!(state.round_count(), 0);
    assert!(state.assets().is_empty());
    assert!(!state.is_done());
}

#[test]
fn the_first_batch_holds_each_key_once() {
    let state = LoadState::new(&strings(&["b", "a", "b", "data:,x", "a"]));
    assert_eq!(state.pending_keys(), &strings(&["b", "a", "data:,x"]));
    let batch = state.batch();
    assert_eq!(batch.local_paths, strings(&["b", "a"]));
    assert_eq!(batch.data_urls, strings(&["data:,x"]));
    assert!(LoadState::new(&Vec::new()).is_done());
}

#[test]
fn a_load_into_an_existing_store_fetches_only_what_is_missing() {
    let mut store = RawAssets::new();
    store.insert("a.obj", OBJ_A.as_bytes().to_vec());
    store.insert("kept.bin", vec![5]);
    let mut state = LoadState::resume(store, &strings(&["kept.bin", "new.bin"]));
    assert_eq!(state.pending_keys(), &strings(&["new.bin", "b.mtl"]));
    let mut round = RawAssets::new();
    round.insert("new.bin", vec![6]);
    round.insert("b.mtl", mtl("kept.bin"));
    assert_eq!(state.advance(round), Ok(()));
    assert!(state.is_done());
    assert_eq!(state.round_count(), 1);
    let store = state.finish();
    assert_eq!(
        sorted_keys(&store),
        strings(&["a.obj", "b.mtl", "kept.bin", "new.bin"])
    );
    assert_eq!(store.get("kept.bin").unwrap(), &[5]);
}

#[test]
fn a_round_may_bring_more_than_was_asked_for() {
    let mut state = LoadState::new(&strings(&["a.obj"]));
    let mut round = RawAssets::new();
    round.insert("a.obj", OBJ_A.as_bytes().to_vec());
    round.insert("b.mtl", mtl("c.png"));
    assert_eq!(state.advance(round), Ok(()));
    assert_eq!(state.pending_keys(), &strings(&["c.png"]));
    assert_eq!(state.round_count(), 1);
}

struct Document;

impl Deserialize for Document {
    fn deserialize(path: &str, raw_assets: &mut RawAssets) -> Result<Self, Error> {
        let bytes = raw_assets.remove(path)?;
        match gltf::Gltf::from_slice(&bytes) {
            Ok(_) => Ok(Document),
            Err(e) => Err(Error::Gltf(e.to_string())),
        }
    }
}

#[test]
fn corrupt_bytes_load_without_error_and_fail_when_decoded() {
    let corrupt = b"{ \"asset\": { \"version\": \"2.0\" }, \"buffers\": [ { \"uri\": \"cube.b".to_vec();
    let mut disk = Disk::new(&[("cube.gltf", corrupt)]);
    let (mut assets, rounds) = load(&mut disk, &["cube.gltf"]).unwrap();
    assert_eq!(rounds, 1);
    assert_eq!(assets.len(), 1);
    let decoded: Result<Document, Error> = assets.deserialize("cube.gltf");
    assert!(matches!(decoded, Err(Error::Gltf(_))));
}

#[test]
fn what_was_read_is_stored_until_the_first_failure() {
    let read = vec![
        Fetched { key: "a".to_string(), outcome: Ok(vec![1]) },
        Fetched { key: "b".to_string(), outcome: Ok(vec![2]) },
        Fetched { key: "a".to_string(), outcome: Ok(vec![3]) },
    ];
    let assets = collect_from_disk(read).unwrap();
    assert_eq!(
        entries(&assets),
        vec![("a".to_string(), vec![3]), ("b".to_string(), vec![2])]
    );
    let failing = vec![
        Fetched { key: "a".to_string(), outcome: Ok(vec![1]) },
        Fetched { key: "b".to_string(), outcome: Err("denied".to_string()) },
        Fetched { key: "c".to_string(), outcome: Err("gone".to_string()) },
    ];
    assert_eq!(
        collect_from_disk(failing).err(),
        Some(Error::FailedLoading("b".to_string(), "denied".to_string()))
    );
}

#[test]
fn a_page_in_place_of_a_payload_is_a_failed_fetch_where_bodies_are_sniffed() {
    let page = b"<!DOCTYPE html><html>404</html>".to_vec();
    let answers = || {
        vec![
            Fetched { key: "https://h/a.png".to_string(), outcome: Ok(vec![0x89, 0x50]) },
            Fetched { key: "https://h/b.png".to_string(), outcome: Ok(page.clone()) },
        ]
    };
    assert_eq!(
        collect_from_network(answers(), true).err(),
        Some(Error::FailedLoadingUrl(
            "https://h/b.png".to_string(),
            "<!DOCTYPE html><html>404</html>".to_string()
        ))
    );
    let kept = collect_from_network(answers(), false).unwrap();
    assert_eq!(kept.get("https://h/b.png").unwrap(), page.as_slice());
    let pages = vec![
        Fetched { key: "https://h/index.html".to_string(), outcome: Ok(page.clone()) },
        Fetched { key: "https://h/old.htm".to_string(), outcome: Ok(page.clone()) },
    ];
    let wanted = collect_from_network(pages, true).unwrap();
    assert_eq!(wanted.get("https://h/index.html").unwrap(), page.as_slice());
    assert_eq!(wanted.len(), 2);
    let refused = vec![Fetched {
        key: "https://h/c.png".to_string(),
        outcome: Err("connection refused".to_string()),
    }];
    assert_eq!(
        collect_from_network(refused, false).err(),
        Some(Error::FailedLoadingUrl(
            "https://h/c.png".to_string(),
            "connection refused".to_string()
        ))
    );
}

#[test]
fn two_spellings_of_one_path_are_fetched_once() {
    let mut disk = Disk::new(&[
        ("dir/a.obj", "mtllib ./b.mtl\no tri\nv 0 0 0\nv 1 0 0\nv 0 1 0\nf 1 2 3\n".as_bytes().to_vec()),
        ("dir/b.mtl", mtl(".//c.png")),
        ("dir/c.png", vec![1]),
    ]);
    let (assets, rounds) = load(&mut disk, &["dir//a.obj", "dir/./a.obj", "dir/b.mtl"]).unwrap();
    assert_eq!(disk.reads["dir/a.obj"], 1);
    assert_eq!(disk.reads["dir/b.mtl"], 1);
    assert_eq!(disk.reads["dir/c.png"], 1);
    assert_eq!(rounds, 2);
    assert_eq!(sorted_keys(&assets), strings(&["dir/a.obj", "dir/b.mtl", "dir/c.png"]));
    assert_eq!(assets.get("dir//c.png").unwrap(), &[1]);
}
