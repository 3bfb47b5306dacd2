use three_d_asset::data_url::{data_url_outcome, parse_data_url, parse_data_urls};
use three_d_asset::dependencies::{
    check_obj_text, dependencies, dependencies_mtl, dependencies_obj, discover,
    get_dependencies, gltf_dependencies, is_short_glb, mtl_dependencies, obj_dependencies,
    references, GltfImage, GltfOutline, MaterialMaps,
};
use three_d_asset::{Error, RawAssets};

const OBJ: &str = "mtllib shared.mtl\no tri\nv 0 0 0\nv 1 0 0\nv 0 1 0\nf 1 2 3\n";

const MTL: &str = "newmtl red\nNs 10.0\nKa 1 1 1\nKd 1 0 0\nKs 0 0 0\nd 1.0\nillum 2\nmap_Ka amb.png\nmap_Kd tex/diff.png\nmap_bump amb.png\n";

const GLTF: &str = r#"{
  "asset": { "version": "2.0" },
  "buffers": [
    { "uri": "cube.bin", "byteLength": 4 },
    { "uri": "data:application/octet-stream;base64,AAAAAA==", "byteLength": 4 }
  ],
  "images": [
    { "uri": "textures/base.png" },
    { "uri": "cube.bin" }
  ],
  "textures": [ { "source": 0 }, { "source": 1 }, { "source": 0 } ]
}"#;

fn strings(items: &[&str]) -> Vec<String> {
    items.iter().map(|s| s.to_string()).collect()
}

fn no_maps() -> MaterialMaps {
    MaterialMaps {
        ambient_map: None,
        diffuse_map: None,
        specular_map: None,
        specular_exponent_map: None,
        displacement_map: None,
        dissolve_map: None,
        decal_map: None,
        bump_map: None,
    }
}

#[test]
fn a_data_url_holds_its_bytes() {
    assert_eq!(parse_data_url("data:,Hello%20World!").unwrap(), b"Hello World!");
    assert_eq!(
        parse_data_url("data:text/plain;base64,SGVsbG8=").unwrap(),
        b"Hello"
    );
    assert_eq!(parse_data_url("data:,").unwrap(), b"");
}

#[test]
fn a_malformed_data_url_names_itself_and_the_cause() {
    assert_eq!(
        parse_data_url("data:text/plain"),
        Err(Error::FailedParsingDataUrl(
            "data:text/plain".to_string(),
            "NoComma".to_string()
        ))
    );
    assert_eq!(
        parse_data_url("notdata:,x"),
        Err(Error::FailedParsingDataUrl(
            "notdata:,x".to_string(),
            "NotADataUrl".to_string()
        ))
    );
    match parse_data_url("data:;base64,@@@@") {
        Err(Error::FailedParsingDataUrl(key, cause)) => {
            assert_eq!(key, "data:;base64,@@@@");
            assert!(cause.contains("InvalidBase64"));
        }
        other => panic!("unexpected {:?}", other),
    }
}

#[test]
fn the_outcome_of_a_data_url_follows_the_decoding() {
    assert_eq!(data_url_outcome("data:,a", Ok(vec![97])), Ok(vec![97]));
    assert_eq!(
        data_url_outcome("data:x", Err("NoComma".to_string())),
        Err(Error::FailedParsingDataUrl(
            "data:x".to_string(),
            "NoComma".to_string()
        ))
    );
}

#[test]
fn data_urls_are_stored_under_themselves_until_one_is_malformed() {
    let mut assets = RawAssets::new();
    assets.insert("kept", vec![9]);
    let done = parse_data_urls(strings(&["data:,a", "data:,b"]), &mut assets);
    assert_eq!(done, Ok(()));
    assert_eq!(assets.get("data:,a").unwrap(), b"a");
    assert_eq!(assets.get("data:,b").unwrap(), b"b");
    assert_eq!(assets.len(), 3);

    let mut partial = RawAssets::new();
    let failed = parse_data_urls(
        strings(&["data:,a", "data:broken", "data:,c", "data:worse"]),
        &mut partial,
    );
    assert_eq!(
        failed,
        Err(Error::FailedParsingDataUrl(
            "data:broken".to_string(),
            "NoComma".to_string()
        ))
    );
    assert!(partial.contains_key("data:,a"));
    assert!(!partial.contains_key("data:,c"));
    assert_eq!(partial.len(), 1);
}

#[test]
fn an_obj_file_refers_to_its_material_library() {
    assert_eq!(
        references("models/a.obj", OBJ.as_bytes()),
        strings(&["models/shared.mtl"])
    );
    assert_eq!(references("a.obj", OBJ.as_bytes()), strings(&["shared.mtl"]));
    assert_eq!(
        references("a.obj", b"o tri\nv 0 0 0\nv 1 0 0\nv 0 1 0\nf 1 2 3\n"),
        Vec::<String>::new()
    );
    assert_eq!(
        obj_dependencies("dir/a.obj", &Some("lib.mtl".to_string())),
        strings(&["dir/lib.mtl"])
    );
    assert_eq!(
        obj_dependencies("dir/a.obj", &Some("data:,x".to_string())),
        strings(&["dir/data:,x"])
    );
    assert_eq!(obj_dependencies("dir/a.obj", &None), Vec::<String>::new());
}

#[test]
fn a_material_library_refers_to_its_maps_once_each() {
    assert_eq!(
        references("models/shared.mtl", MTL.as_bytes()),
        strings(&["models/amb.png", "models/tex/diff.png"])
    );
    let first = MaterialMaps {
        diffuse_map: Some("d.png".to_string()),
        bump_map: Some("b.png".to_string()),
        ambient_map: Some("a.png".to_string()),
        ..no_maps()
    };
    let second = MaterialMaps {
        specular_map: Some("s.png".to_string()),
        specular_exponent_map: Some("e.png".to_string()),
        displacement_map: Some("p.png".to_string()),
        dissolve_map: Some("o.png".to_string()),
        decal_map: Some("d.png".to_string()),
        ..no_maps()
    };
    assert_eq!(
        mtl_dependencies("m/x.mtl", &vec![first, second]),
        strings(&[
            "m/a.png", "m/d.png", "m/b.png", "m/s.png", "m/e.png", "m/p.png", "m/o.png"
        ])
    );
    assert_eq!(mtl_dependencies("x.mtl", &Vec::new()), Vec::<String>::new());
}

#[test]
fn a_gltf_document_refers_to_its_buffers_and_texture_images() {
    assert_eq!(
        references("scenes/cube.gltf", GLTF.as_bytes()),
        strings(&[
            "scenes/cube.bin",
            "data:application/octet-stream;base64,AAAAAA==",
            "scenes/textures/base.png",
        ])
    );
    assert_eq!(
        references("scenes/cube.glb", GLTF.as_bytes()),
        references("scenes/cube.gltf", GLTF.as_bytes())
    );
}

#[test]
fn an_image_in_a_buffer_view_or_without_a_texture_is_no_reference() {
    let outline = GltfOutline {
        buffers: vec![None, Some("b.bin".to_string())],
        images: vec![
            GltfImage { buffer_view: Some(0), uri: Some("inside.png".to_string()) },
            GltfImage { buffer_view: None, uri: Some("outside.png".to_string()) },
            GltfImage { buffer_view: None, uri: Some("unused.png".to_string()) },
            GltfImage { buffer_view: None, uri: None },
        ],
        textures: vec![0, 1, 3, 17, 1],
    };
    assert_eq!(
        gltf_dependencies("dir/s.gltf", &outline),
        strings(&["dir/b.bin", "dir/outside.png"])
    );
}

#[test]
fn the_extension_of_the_key_selects_the_format() {
    assert_eq!(references("a.txt", OBJ.as_bytes()), Vec::<String>::new());
    assert_eq!(references("a.mtl", OBJ.as_bytes()), Vec::<String>::new());
    assert_eq!(references("obj", OBJ.as_bytes()), Vec::<String>::new());
    assert_eq!(references("a.obj", MTL.as_bytes()), Vec::<String>::new());
}

#[test]
fn corrupt_bytes_refer_to_nothing() {
    let truncated = &GLTF.as_bytes()[..40];
    assert_eq!(references("cube.gltf", truncated), Vec::<String>::new());
    assert_eq!(references("cube.glb", b"glTF\x02\x00"), Vec::<String>::new());
    assert_eq!(references("a.obj", &[0xff, 0xfe, 0x00]), Vec::<String>::new());
    assert_eq!(references("a.obj", b"mtllib\n???"), Vec::<String>::new());
    assert_eq!(references("a.mtl", b"newmtl"), Vec::<String>::new());
    assert_eq!(references("a.mtl", &[0xc3]), Vec::<String>::new());
}

#[test]
fn the_named_functions_look_the_asset_up_in_the_store() {
    let mut assets = RawAssets::new();
    assets.insert("s/cube.gltf", GLTF.as_bytes().to_vec());
    assets.insert("o/a.obj", OBJ.as_bytes().to_vec());
    assets.insert("o/shared.mtl", MTL.as_bytes().to_vec());
    assert_eq!(
        dependencies(&assets, "s/cube.gltf"),
        strings(&[
            "s/cube.bin",
            "data:application/octet-stream;base64,AAAAAA==",
            "s/textures/base.png",
        ])
    );
    assert_eq!(dependencies_obj(&assets, "o/a.obj"), strings(&["o/shared.mtl"]));
    assert_eq!(
        dependencies_mtl(&assets, "o/shared.mtl"),
        strings(&["o/amb.png", "o/tex/diff.png"])
    );
    assert_eq!(dependencies(&assets, "absent.gltf"), Vec::<String>::new());
    assert_eq!(dependencies_obj(&assets, "absent.obj"), Vec::<String>::new());
    assert_eq!(dependencies_mtl(&assets, "absent.mtl"), Vec::<String>::new());
}

#[test]
fn get_dependencies_leaves_out_what_is_stored() {
    let mut assets = RawAssets::new();
    assets.insert("o/a.obj", OBJ.as_bytes().to_vec());
    assets.insert("o/b.obj", OBJ.as_bytes().to_vec());
    assert_eq!(get_dependencies(&assets), strings(&["o/shared.mtl"]));
    assets.insert("o/shared.mtl", MTL.as_bytes().to_vec());
    assert_eq!(
        get_dependencies(&assets),
        strings(&["o/amb.png", "o/tex/diff.png"])
    );
    assets.insert("o/amb.png", vec![1]);
    assert_eq!(get_dependencies(&assets), strings(&["o/tex/diff.png"]));
    assets.insert("o/tex/diff.png", vec![2]);
    assert_eq!(get_dependencies(&assets), Vec::<String>::new());
}

#[test]
fn discover_subtracts_the_keys_of_another_store() {
    let mut round = RawAssets::new();
    round.insert("o/shared.mtl", MTL.as_bytes().to_vec());
    let mut known = RawAssets::new();
    known.insert("o/amb.png", vec![1]);
    assert_eq!(discover(&round, &known), strings(&["o/tex/diff.png"]));
    assert_eq!(
        discover(&round, &RawAssets::new()),
        strings(&["o/amb.png", "o/tex/diff.png"])
    );
}

#[test]
fn a_binary_file_that_declares_less_than_its_header_is_not_read() {
    let mut short = b"glTF".to_vec();
    short.extend_from_slice(&[2, 0, 0, 0]);
    short.extend_from_slice(&[11, 0, 0, 0]);
    short.extend_from_slice(&[0; 8]);
    assert!(is_short_glb(&short));
    assert_eq!(references("cube.glb", &short), Vec::<String>::new());
    let mut exact = b"glTF".to_vec();
    exact.extend_from_slice(&[2, 0, 0, 0]);
    exact.extend_from_slice(&[12, 0, 0, 0]);
    assert!(!is_short_glb(&exact));
    assert_eq!(references("cube.glb", &exact), Vec::<String>::new());
    assert!(!is_short_glb(b"glTF"));
    assert!(!is_short_glb(GLTF.as_bytes()));
    let mut large = b"glTF".to_vec();
    large.extend_from_slice(&[2, 0, 0, 0]);
    large.extend_from_slice(&[0, 1, 0, 0]);
    assert!(!is_short_glb(&large));
}

#[test]
fn only_an_overlong_negative_number_keeps_an_obj_file_from_its_parser() {
    assert!(check_obj_text(OBJ));
    assert!(check_obj_text(""));
    assert!(check_obj_text("f -123456789012345678 2 3"));
    assert!(!check_obj_text("f -1234567890123456789 2 3"));
    assert!(!check_obj_text("f 1/-1234567890123456789 2 3"));
    assert!(!check_obj_text("-00000000000000000001"));
    assert!(check_obj_text("1234567890123456789"));
    assert!(check_obj_text("12345678901234567890123456789"));
    assert!(check_obj_text("- 1234567890123456789"));
    assert!(check_obj_text("-123456789012345678-123456789012345678"));
    assert!(check_obj_text("--------------------"));
    assert!(check_obj_text("v -1234567890123456789.5 0 0"));
    assert!(check_obj_text("o mesh-1234567890123456789"));
    assert!(check_obj_text("-1234567890123456789x"));
    assert!(!check_obj_text("f 1/1/-1234567890123456789"));
    assert!(!check_obj_text("f\t-1234567890123456789\n"));
    assert!(!check_obj_text("f -1234567890123456789#end"));
    let hostile =
        "mtllib lib.mtl\no tri\nv 0 0 0\nv 1 0 0\nv 0 1 0\nf -9223372036854775808 2 3\n";
    assert_eq!(references("a.obj", hostile.as_bytes()), Vec::<String>::new());
}

#[test]
fn long_numbers_and_names_do_not_hide_the_material_library() {
    let long_decimal =
        "mtllib lib.mtl\no tri\nv 0.1234567890123456789 0 0\nv 1 0 0\nv 0 1 0\nf 1 2 3\n";
    assert_eq!(references("a.obj", long_decimal.as_bytes()), vec!["lib.mtl".to_string()]);
    let long_name =
        "mtllib lib.mtl\no mesh_20240101123456789012\nv 0 0 0\nv 1 0 0\nv 0 1 0\nf 1 2 3\n";
    assert_eq!(references("dir/a.obj", long_name.as_bytes()), vec!["dir/lib.mtl".to_string()]);
    let comment =
        "# id 99999999999999999999999\nmtllib lib.mtl\no tri\nv 0 0 0\nv 1 0 0\nv 0 1 0\nf 1 2 3\n";
    assert_eq!(references("a.obj", comment.as_bytes()), vec!["lib.mtl".to_string()]);
    let negative_decimal =
        "mtllib lib.mtl\no tri\nv -0.1234567890123456789 0 0\nv 1 0 0\nv 0 1 0\nf 1 2 3\n";
    assert_eq!(references("a.obj", negative_decimal.as_bytes()), vec!["lib.mtl".to_string()]);
    let long_coordinate =
        "mtllib lib.mtl\no part-1234567890123456789\nv -1234567890123456789.5 0 0\nv 1 0 0\nv 0 1 0\nf 1 2 3\n";
    assert_eq!(references("a.obj", long_coordinate.as_bytes()), vec!["lib.mtl".to_string()]);
    let mut assets = RawAssets::new();
    assets.insert("a.obj", long_name.as_bytes().to_vec());
    assert_eq!(get_dependencies(&assets), vec!["lib.mtl".to_string()]);
}

#[test]
fn a_document_that_would_not_pass_validation_is_read_without_harm() {
    let no_accessors =
        br#"{"asset":{"version":"2.0"},"meshes":[{"primitives":[{"attributes":{"POSITION":0}}]}]}"#;
    assert_eq!(references("scene.gltf", no_accessors), Vec::<String>::new());
    let with_buffer = br#"{"asset":{"version":"2.0"},"buffers":[{"uri":"data.bin","byteLength":4}],"textures":[{"source":7}],"meshes":[{"primitives":[{"attributes":{"POSITION":3}}]}]}"#;
    assert_eq!(
        references("dir/scene.gltf", with_buffer),
        vec!["dir/data.bin".to_string()]
    );
}
