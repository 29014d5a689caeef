use llmman::cmd::serve::manager::{
    backend_url, cache_path, canonical_ref, llama_server_places, not_ready, resolve_llama_server,
    spawn_llama_server, spawn_vllm_server, which_binary, Ensure, ModelManager, RunningModel,
};
use llmman::cmd::serve::model::{
    extract_safetensors_dir, find_entry, gguf_source, is_gguf_layer, is_safetensors_layer,
    layer_filepath, locate_gguf, resolve_model, GgufLayer, GgufPlace, GgufSource, LayerCopy,
    ModelError, ModelKind, FILEPATH, HF_GGUF_MEDIA_TYPE, WEIGHT_CONFIG_MEDIA_TYPE,
    WEIGHT_MEDIA_TYPE,
};
use llmman::archive::{listable_len, make_single_file_tar};
use llmman::storage::oci::{Descriptor, ImageBuilder, Manifest, OciStore, MANIFEST_MEDIA_TYPE, TITLE};
use llmman::string_map::StringMap;

fn layer(media_type: &str, digest: &str, notes: &[(&str, &str)]) -> Descriptor {
    Descriptor {
        media_type: media_type.to_string(),
        digest: digest.to_string(),
        size: 1,
        annotations: Some(StringMap::from_pairs(
            notes.iter().map(|(k, v)| (k.to_string(), v.to_string())).collect(),
        )),
    }
}

fn manifest(layers: Vec<Descriptor>) -> Manifest {
    Manifest {
        schema_version: 2,
        media_type: MANIFEST_MEDIA_TYPE.to_string(),
        config: layer("c", "sha256:cc", &[]),
        layers,
        annotations: None,
    }
}

fn store() -> OciStore {
    OciStore::open("/s", None)
}

fn resolve(layers: Vec<Descriptor>) -> Result<ModelKind, ModelError> {
    resolve_model(&store(), &manifest(layers), "/cache", "the/model")
}

#[test]
fn files_of_layers_have_paths() {
    let l = layer("t", "sha256:aa", &[(TITLE, "title.GGUF")]);
    assert_eq!(layer_filepath(&l), Some("title.GGUF"));
    assert!(is_gguf_layer(&l));
    let l = layer("t", "sha256:aa", &[(TITLE, "a.gguf"), (FILEPATH, "b.safetensors")]);
    assert_eq!(layer_filepath(&l), Some("b.safetensors"));
    assert!(!is_gguf_layer(&l));
    assert!(is_safetensors_layer(&l));
    let l = layer(HF_GGUF_MEDIA_TYPE, "sha256:aa", &[]);
    assert!(is_gguf_layer(&l));
    assert_eq!(layer_filepath(&l), None);
}

#[test]
fn the_first_gguf_layer_is_served() {
    let kind = resolve(vec![
        layer("t", "sha256:aa", &[(TITLE, "x.safetensors")]),
        layer("t", "sha256:bb", &[(TITLE, "d/x.gguf")]),
        layer("t", "sha256:cc", &[(TITLE, "y.gguf")]),
    ])
    .unwrap();
    match kind {
        ModelKind::Gguf(g) => {
            assert_eq!(g.index, 1);
            assert_eq!(g.title, "d/x.gguf");
            assert_eq!(g.direct, None);
            assert_eq!(g.dir, "/cache/bb");
        }
        other => panic!("{other:?}"),
    }
}

#[test]
fn raw_gguf_blobs_are_used_directly() {
    match resolve(vec![layer(HF_GGUF_MEDIA_TYPE, "sha256:ab", &[])]).unwrap() {
        ModelKind::Gguf(g) => {
            assert_eq!(g.title, "model.gguf");
            assert_eq!(g.direct.as_deref(), Some("/s/blobs/sha256/ab"));
        }
        other => panic!("{other:?}"),
    }
}

#[test]
fn safetensors_come_second() {
    let kind = resolve(vec![
        layer("t", "sha256:aa", &[(TITLE, "config.json")]),
        layer("t", "sha256:bb", &[(TITLE, "m.SafeTensors")]),
    ]);
    assert!(matches!(kind, Ok(ModelKind::SafeTensors)));
}

#[test]
fn other_models_are_refused() {
    let e = resolve(vec![layer("t", "bad", &[(TITLE, "x.gguf")])]).unwrap_err();
    assert_eq!(e.message(), "malformed digest: bad");
    let e = resolve(vec![layer("t", "sha256:aa", &[])]).unwrap_err();
    assert_eq!(e.message(), "no servable model layer found in the/model");
    let e = resolve(vec![
        layer("t", "sha256:aa", &[(TITLE, "a.BIN")]),
        layer("t", "sha256:bb", &[(TITLE, "b.bin")]),
        layer("t", "sha256:cc", &[(TITLE, "c.t\"x")]),
        layer("t", "sha256:dd", &[(TITLE, "none")]),
    ])
    .unwrap_err();
    assert_eq!(
        e.message(),
        "no servable model layer in the/model — found {\"bin\", \"t\\\"x\"} files; \
         llmman serve supports GGUF (llama-server) and safetensors (vllm)"
    );
}

fn gguf_layer() -> GgufLayer {
    GgufLayer {
        index: 0,
        title: "weights/tiny.gguf".to_string(),
        direct: None,
        dir: "/cache/aa".to_string(),
    }
}

#[test]
fn gguf_files_are_known_by_their_magic() {
    match gguf_source(b"GGUF\x03", &gguf_layer(), "m").unwrap() {
        GgufSource::Whole { dest } => assert_eq!(dest, "/cache/aa/tiny.gguf"),
        other => panic!("{other:?}"),
    }
}

#[test]
fn packaged_gguf_files_are_found_again() {
    let s = store();
    let mut b = ImageBuilder::new();
    let w = b.add_file(&s, "weights/tiny.gguf", b"GGUF....").unwrap();
    let (_, m) = b.manifest(&s, b"{}");
    let g = match resolve_model(&s, &m, "/cache", "m").unwrap() {
        ModelKind::Gguf(g) => g,
        other => panic!("{other:?}"),
    };
    match gguf_source(&w.data, &g, "m").unwrap() {
        GgufSource::Entry { index, dest } => {
            assert_eq!(index, 0);
            assert_eq!(dest, format!("{}/tiny.gguf", g.dir));
        }
        other => panic!("{other:?}"),
    }
}

#[test]
fn archives_without_gguf_files_are_refused() {
    let a = make_single_file_tar("x.txt", b"1").unwrap();
    let e = gguf_source(&a, &gguf_layer(), "the/model").unwrap_err();
    assert_eq!(e.message(), "no .gguf in tar layer of the/model");
    let e = gguf_source(&[7u8; 600], &gguf_layer(), "the/model").unwrap_err();
    assert!(matches!(e, ModelError::UnreadableEntry(0)));
    let e = gguf_source(b"", &gguf_layer(), "the/model").unwrap_err();
    assert!(matches!(e, ModelError::NoGgufInTar(_)));
}

#[test]
fn the_first_gguf_name_is_taken() {
    let names: Vec<String> =
        ["a.txt", ".gguf", "b.gguf", "c.gguf"].iter().map(|s| s.to_string()).collect();
    let mut layer = gguf_layer();
    assert!(matches!(locate_gguf(&layer, true, &names), Some(GgufPlace::Extracted(2))));
    assert!(locate_gguf(&layer, false, &vec![]).is_none());
    layer.direct = Some("/blob".to_string());
    assert!(matches!(locate_gguf(&layer, true, &names), Some(GgufPlace::Blob(p)) if p == "/blob"));
    assert!(matches!(locate_gguf(&layer, false, &names), Some(GgufPlace::Extracted(2))));
    let path = |p: &[u8]| Some(p.to_vec());
    assert_eq!(find_entry(&vec![path(b"a/"), path(b"a/x.gguf"), None]), Some(1));
    assert_eq!(find_entry(&vec![path(b"a"), None]), Some(1));
    assert_eq!(find_entry(&vec![path(b"x.GGUF"), path(b"a/.gguf"), path(b"x.gguf/..")]), None);
    assert_eq!(find_entry(&vec![path(b"x.gguf\xff"), path(b"\xff.gguf")]), Some(1));
}

/// Sets the checksum in the header at the start of an archive.
fn sign(a: &mut [u8]) {
    a[148..156].fill(b' ');
    let sum: u32 = a[..512].iter().map(|b| *b as u32).sum();
    a[148..156].copy_from_slice(format!("{sum:06o}\0 ").as_bytes());
}

#[test]
fn model_files_need_names_that_are_texts() {
    let mut a = make_single_file_tar("dir/a.gguf", b"1").unwrap();
    a[4] = 0xff;
    sign(&mut a);
    let e = gguf_source(&a, &gguf_layer(), "m").unwrap_err();
    assert_eq!(e.message(), "non-UTF-8 model path");
    a[4] = b'b';
    a[0] = 0xff;
    sign(&mut a);
    match gguf_source(&a, &gguf_layer(), "m").unwrap() {
        GgufSource::Entry { index, dest } => {
            assert_eq!((index, dest.as_str()), (0, "/cache/aa/b.gguf"))
        }
        other => panic!("{other:?}"),
    }
}

/// The header of a sparse file that goes on in further blocks, and one such block.
fn sparse(size: [u8; 12]) -> Vec<u8> {
    let mut a = vec![0u8; 1024];
    a[124..136].copy_from_slice(&size);
    a[156] = b'S';
    a[257..265].copy_from_slice(b"ustar  \0");
    a[482] = 1;
    sign(&mut a);
    a
}

const HUGE: [u8; 12] = [0x80, 0, 0, 0, 0xff, 0xff, 0xff, 0xff, 0xff, 0xff, 0xfc, 0];

#[test]
fn headers_that_lead_beyond_all_bounds_cannot_be_read() {
    let a = sparse(HUGE);
    assert_eq!(listable_len(&a), 0);
    assert!(matches!(
        gguf_source(&a, &gguf_layer(), "m").unwrap_err(),
        ModelError::UnreadableEntry(0)
    ));
    let recorded = |record: &[u8]| {
        let mut a = sparse(*b"00000000000\0");
        a[600..600 + record.len()].copy_from_slice(record);
        listable_len(&a)
    };
    assert_eq!(recorded(b"29 size=18446744073709551615\n"), 0);
    assert_eq!(recorded(b"30 size=+18446744073709550081\n"), 0);
    assert_eq!(recorded(b"29 size=0018446744073709550081\n"), 0);
    assert_eq!(recorded(b"29 size=18446744073709550080\n"), 1024);
    assert_eq!(recorded(b"29 size=18446744073709551616\n"), 1024);
    assert_eq!(recorded(b"28 size=9999999999999999999\n"), 1024);
    let mut large = HUGE;
    large[4] = 0xfe;
    assert_eq!(listable_len(&sparse(large)), 1024);
    let mut plain = sparse(HUGE);
    plain[482] = 0;
    assert_eq!(listable_len(&plain), 1024);
    assert_eq!(listable_len(&[0u8; 100]), 100);
}

#[test]
fn files_before_such_a_header_are_found() {
    let mut a = make_single_file_tar("a.gguf", b"1").unwrap();
    a.truncate(1024);
    a.extend(sparse(HUGE));
    assert_eq!(listable_len(&a), 1024);
    assert!(matches!(
        gguf_source(&a, &gguf_layer(), "m"),
        Ok(GgufSource::Entry { index: 0, .. })
    ));
    let mut b = make_single_file_tar("b.txt", b"1").unwrap();
    b.truncate(1024);
    b.extend(sparse(HUGE));
    assert!(matches!(
        gguf_source(&b, &gguf_layer(), "m"),
        Err(ModelError::UnreadableEntry(1))
    ));
    let c = make_single_file_tar("c.gguf", &sparse(HUGE)).unwrap();
    assert_eq!(listable_len(&c), 512);
    assert!(matches!(
        gguf_source(&c, &gguf_layer(), "m"),
        Ok(GgufSource::Entry { index: 0, .. })
    ));
}

#[test]
fn safetensors_models_are_laid_out() {
    let m = manifest(vec![
        layer(WEIGHT_CONFIG_MEDIA_TYPE, "sha256:aa", &[(FILEPATH, "m/config.json")]),
        layer(WEIGHT_MEDIA_TYPE, "bad", &[(FILEPATH, "m/w.safetensors")]),
        layer("application/vnd.cncf.model.doc.v1.raw", "sha256:dd", &[(FILEPATH, "README.md")]),
        layer(WEIGHT_MEDIA_TYPE, "sha256:ee", &[]),
    ]);
    let f = extract_safetensors_dir(&store(), "/cache", "sha256:99", &m).unwrap();
    assert_eq!(f.dir, "/cache/99/m");
    assert_eq!(f.copies.len(), 2);
    assert_eq!(f.copies[0].rel_path, "m/config.json");
    assert_eq!(f.copies[0].dest, "/cache/99/m/config.json");
    assert_eq!(f.copies[0].needed(false).unwrap(), Some("/s/blobs/sha256/aa"));
    assert_eq!(f.copies[0].needed(true).unwrap(), None);
    assert_eq!(f.copies[1].needed(false).unwrap_err().message(), "malformed layer digest");
    let f = extract_safetensors_dir(&store(), "/cache", "sha256:99", &manifest(vec![])).unwrap();
    assert_eq!(f.dir, "/cache/99");
    let e = extract_safetensors_dir(&store(), "/cache", "99", &m).unwrap_err();
    assert_eq!(e.message(), "malformed manifest digest");
    assert_eq!(ModelError::NoParent.message(), "config.json has no parent directory");
    assert_eq!(ModelError::UnreadableEntry(3).message(), "unreadable archive entry 3");
    let c = LayerCopy { rel_path: String::new(), dest: String::new(), source: None };
    assert!(matches!(c.needed(true), Ok(None)));
    assert!(c.needed(false).is_err());
}

fn image(digest: &str) -> Descriptor {
    Descriptor {
        media_type: MANIFEST_MEDIA_TYPE.to_string(),
        digest: digest.to_string(),
        size: 1,
        annotations: None,
    }
}

#[test]
fn references_have_a_canonical_form() {
    let mut s = store();
    s.tag(image("sha256:aa"), "hf.co/repo:latest");
    s.tag(image("sha256:bb"), "hf.co/other:q4");
    assert_eq!(canonical_ref(Some(&s), "hf.co/repo"), "hf.co/repo:latest");
    assert_eq!(canonical_ref(Some(&s), "hf.co/repo:latest"), "hf.co/repo:latest");
    assert_eq!(canonical_ref(Some(&s), "q4"), "hf.co/other:q4");
    assert_eq!(canonical_ref(Some(&s), "hf.co/other"), "hf.co/other");
    assert_eq!(canonical_ref(Some(&s), "hf.co/repo:v1"), "hf.co/repo:v1");
    assert_eq!(canonical_ref(None, "hf.co/repo"), "hf.co/repo");
}

#[test]
fn every_reference_to_a_model_reaches_its_process() {
    let mut s = store();
    s.tag(image("sha256:aa"), "hf.co/repo:latest");
    let names = StringMap::new();
    let mut m: ModelManager<u8> = ModelManager::new();
    let key = match m.ensure_model(Some(&s), "repo", &names) {
        Ensure::Load(k) => k,
        other => panic!("{other:?}"),
    };
    assert_eq!(key, "hf.co/repo:latest");
    m.insert(key, RunningModel { child: 1, port: 4242 });
    for r in ["repo", "hf.co/repo", "hf.co/repo:latest"] {
        assert!(matches!(m.ensure_model(Some(&s), r, &names), Ensure::Running(4242)));
    }
    assert!(matches!(m.ensure_model(Some(&s), "other", &names), Ensure::Load(k) if k == "hf.co/other"));
}

#[test]
fn a_model_has_one_process() {
    let mut m: ModelManager<u8> = ModelManager::new();
    assert!(m.names().is_empty());
    m.insert("a".to_string(), RunningModel { child: 1, port: 1 });
    m.insert("b".to_string(), RunningModel { child: 2, port: 2 });
    m.insert("a".to_string(), RunningModel { child: 3, port: 3 });
    assert_eq!(m.port("a"), Some(3));
    assert_eq!(m.port("b"), Some(2));
    assert_eq!(m.port("c"), None);
    assert_eq!(m.names(), vec!["a", "b"]);
}

#[test]
fn inference_servers_are_started_with_their_model() {
    assert_eq!(
        spawn_llama_server("/m.gguf", 8080),
        vec!["--model", "/m.gguf", "--port", "8080", "--host", "127.0.0.1"]
    );
    assert_eq!(
        spawn_vllm_server("/dir", 65535, "hf.co/x:latest"),
        vec![
            "serve", "/dir", "--port", "65535", "--host", "127.0.0.1", "--served-model-name",
            "hf.co/x:latest"
        ]
    );
    assert_eq!(backend_url(80, "/health"), "http://127.0.0.1:80/health");
    assert_eq!(
        not_ready(9),
        "inference server on port 9 did not become ready within 600s"
    );
    assert_eq!(cache_path("/home/u/.local/share/llmman/store"), "/home/u/.local/share/llmman/cache");
    assert_eq!(cache_path("/"), "/cache");
    assert_eq!(cache_path("store"), "cache");
}

#[test]
fn programs_are_where_which_says() {
    assert_eq!(which_binary("vllm", true, b"/usr/bin/vllm\n"), Ok("/usr/bin/vllm".to_string()));
    let missing = Err("vllm not found on PATH".to_string());
    assert_eq!(which_binary("vllm", false, b"/usr/bin/vllm\n"), missing);
    assert_eq!(which_binary("vllm", true, b" \n"), missing);
}

#[test]
fn llama_server_is_looked_for_in_known_places_first() {
    let places = llama_server_places();
    assert_eq!(places[0], "/usr/local/bin/llama-server");
    let found = Some("/x".to_string());
    assert_eq!(resolve_llama_server(&vec![false, true, true], found.clone()), Ok(places[1].clone()));
    assert_eq!(
        resolve_llama_server(&vec![false, false, true], None),
        Ok("/opt/homebrew/bin/llama-server".to_string())
    );
    assert_eq!(resolve_llama_server(&vec![false; 3], found), Ok("/x".to_string()));
    assert_eq!(
        resolve_llama_server(&vec![], None),
        Err("llama-server not found; install llama.cpp and ensure it is on PATH".to_string())
    );
}
