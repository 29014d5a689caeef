use llmman::storage::oci::{
    ref_matches, split_digest, tag_from_ref, BlobWriter, Descriptor, ImageBuilder, Index, OciStore,
    StoreError, LAYER_MEDIA_TYPE, LAYOUT_MARKER, MANIFEST_MEDIA_TYPE, REF_NAME, TITLE,
};
use llmman::string_map::StringMap;

const EMPTY_SHA256: &str = "e3b0c44298fc1c149afbf4c8996fb92427ae41e4649b934ca495991b7852b855";
const ABC_SHA256: &str = "ba7816bf8f01cfea414140de5dae2223b00361a396177a9cb410ff61f20015ad";

fn store() -> OciStore {
    OciStore::open("/store", None)
}

fn image(digest: &str) -> Descriptor {
    Descriptor {
        media_type: MANIFEST_MEDIA_TYPE.to_string(),
        digest: digest.to_string(),
        size: 7,
        annotations: None,
    }
}

fn names(s: &OciStore) -> Vec<String> {
    s.list(&vec![]).into_iter().map(|i| i.reference).collect()
}

#[test]
fn a_new_store_has_an_empty_index() {
    let s = store();
    assert_eq!(s.root(), "/store");
    let index = s.read_index();
    assert_eq!(index.schema_version, 2);
    assert_eq!(index.media_type, "application/vnd.oci.image.index.v1+json");
    assert!(index.manifests.is_empty());
    assert_eq!(s.marker_path(), "/store/oci-layout");
    assert_eq!(s.index_path(), "/store/index.json");
    assert_eq!(s.index_tmp_path(), "/store/index.json.tmp");
    assert_eq!(s.blob_dir(), "/store/blobs/sha256");
    assert_eq!(LAYOUT_MARKER, "{\"imageLayoutVersion\":\"1.0.0\"}");
}

#[test]
fn an_existing_index_is_taken_over() {
    let index = Index {
        schema_version: 2,
        media_type: "x".to_string(),
        manifests: vec![image("sha256:aa")],
    };
    let s = OciStore::open("/store", Some(index));
    assert_eq!(s.read_index().media_type, "x");
    assert_eq!(names(&s), vec!["sha256:aa"]);
}

#[test]
fn tags_stand_behind_the_last_colon() {
    assert_eq!(tag_from_ref("registry.example.com/mymodel:v1"), "v1");
    assert_eq!(tag_from_ref("registry.example.com/mymodel"), "latest");
    assert_eq!(tag_from_ref("registry.example.com:5000/mymodel"), "latest");
    assert_eq!(tag_from_ref("registry.example.com:5000/mymodel:q4"), "q4");
    assert_eq!(tag_from_ref("mymodel:v1"), "v1");
    assert_eq!(tag_from_ref(":v1"), "latest");
    assert_eq!(tag_from_ref(""), "latest");
    assert_eq!(tag_from_ref("a:"), "");
}

#[test]
fn a_tagged_image_is_found_and_listed_verbatim() {
    let mut s = store();
    s.tag(image("sha256:aa"), "registry.example.com/mymodel:v1");
    let d = s.find("registry.example.com/mymodel:v1").unwrap();
    assert_eq!(d.digest, "sha256:aa");
    assert_eq!(d.annotation(REF_NAME), Some("registry.example.com/mymodel:v1"));
    assert_eq!(s.find("v1").unwrap().digest, "sha256:aa");
    assert_eq!(names(&s), vec!["registry.example.com/mymodel:v1"]);
}

#[test]
fn a_full_reference_goes_before_a_tag() {
    let mut s = store();
    s.tag(image("sha256:aa"), "x/model:v1");
    s.tag(image("sha256:bb"), "v1");
    assert_eq!(s.find("v1").unwrap().digest, "sha256:bb");
    assert_eq!(s.find("x/model:v1").unwrap().digest, "sha256:aa");
    assert_eq!(names(&s), vec!["x/model:v1", "v1"]);
}

#[test]
fn tagging_again_replaces_in_place() {
    let mut s = store();
    s.tag(image("sha256:aa"), "a:1");
    s.tag(image("sha256:bb"), "b:1");
    s.tag(image("sha256:cc"), "a:1");
    assert_eq!(names(&s), vec!["a:1", "b:1"]);
    assert_eq!(s.find("a:1").unwrap().digest, "sha256:cc");
    assert_eq!(s.find("b:1").unwrap().digest, "sha256:bb");
}

#[test]
fn a_missing_image_is_not_found() {
    let s = store();
    let e = s.find("x").unwrap_err();
    assert_eq!(e.message(), "image not found: x");
    assert!(matches!(e, StoreError::NotFound(r) if r == "x"));
}

#[test]
fn removal_takes_what_matches_and_nothing_else() {
    let mut s = store();
    s.tag(image("sha256:aa"), "a:v1");
    s.tag(image("sha256:bb"), "b:v1");
    s.tag(image("sha256:cc"), "c:v2");
    assert!(s.remove("v1").is_ok());
    assert_eq!(names(&s), vec!["c:v2"]);
    assert!(s.find("a:v1").is_err());
    assert_eq!(s.remove("a:v1").unwrap_err().message(), "image not found: a:v1");
    assert_eq!(names(&s), vec!["c:v2"]);
}

#[test]
fn removal_undoes_a_tag() {
    let mut s = store();
    s.tag(image("sha256:aa"), "a:v1");
    s.tag(image("sha256:bb"), "b:v2");
    s.remove("b:v2").unwrap();
    assert_eq!(names(&s), vec!["a:v1"]);
}

#[test]
fn descriptors_without_a_name_match_nothing() {
    let d = image("sha256:aa");
    assert!(!ref_matches(&d, "latest"));
    let mut s = store();
    s.tag(d, "x/y");
    assert!(ref_matches(&s.find("x/y").unwrap(), "latest"));
}

#[test]
fn lists_give_times_in_order() {
    let mut s = store();
    s.tag(image("sha256:aa"), "a:v1");
    s.tag(image("sha256:bb"), "b:v1");
    let list = s.list(&vec![Some(5)]);
    assert_eq!(list[0].modified_at, Some(5));
    assert_eq!(list[1].modified_at, None);
    assert_eq!(list[1].size, 7);
    assert_eq!(list[1].media_type, MANIFEST_MEDIA_TYPE);
}

#[test]
fn digests_have_an_algorithm() {
    assert_eq!(split_digest("sha256:ab:c").unwrap(), ("sha256", "ab:c"));
    let e = split_digest("abc").unwrap_err();
    assert_eq!(e.message(), "invalid digest: abc");
    let s = store();
    assert_eq!(s.read_blob("sha512:ff").unwrap(), "/store/blobs/sha512/ff");
    assert_eq!(s.read_manifest("sha256:ff").unwrap(), "/store/blobs/sha256/ff");
    assert!(matches!(s.blob_path("ff"), Err(StoreError::InvalidDigest(_))));
}

#[test]
fn blobs_are_kept_under_their_digest() {
    let s = store();
    let w = s.write_blob("text/plain", b"abc");
    assert_eq!(w.descriptor.digest, format!("sha256:{ABC_SHA256}"));
    assert_eq!(w.descriptor.size, 3);
    assert_eq!(w.descriptor.media_type, "text/plain");
    assert_eq!(w.path, format!("/store/blobs/sha256/{ABC_SHA256}"));
    assert_eq!(w.tmp, format!("/store/blobs/sha256/{ABC_SHA256}.tmp"));
    assert_eq!(s.read_blob(&w.descriptor.digest).unwrap(), w.path);
    assert_eq!(
        s.write_blob("text/plain", b"").descriptor.digest,
        format!("sha256:{EMPTY_SHA256}")
    );
}

#[test]
fn blobs_read_in_pieces_are_the_same_blobs() {
    let s = store();
    let mut w = BlobWriter::new();
    w.update(b"a");
    w.update(b"");
    w.update(b"bc");
    let w = s.write_blob_file("text/plain", w, 42);
    assert_eq!(w.descriptor.digest, format!("sha256:{ABC_SHA256}"));
    assert_eq!(w.descriptor.size, 3);
    assert_eq!(w.tmp, "/store/blobs/sha256/tmp-42");
    assert_eq!(w.path, s.write_blob("text/plain", b"abc").path);
}

#[test]
fn files_become_layers_of_an_image() {
    let mut s = store();
    let mut b = ImageBuilder::new();
    let first = b.add_file(&s, "weights/model.gguf", b"data").unwrap();
    b.add_file(&s, "README.md", b"").unwrap();
    assert_eq!(first.data.len(), 512 + 512 + 1024);
    assert_eq!(&first.data[..18], b"weights/model.gguf");
    assert_eq!(&first.data[512..516], b"data");
    assert_eq!(first.blob.descriptor.size, 2048);

    let mut labels = StringMap::new();
    labels.insert("k".to_string(), "v".to_string());
    let config = b.config("/src", "x86_64", "linux", &labels).unwrap();
    assert_eq!(config.architecture, "x86_64");
    assert_eq!(config.os, "linux");
    assert_eq!(config.labels.get("k"), Some("v"));
    assert!(config.created.len() >= 25);
    let config = b.config_at("/src", "arm64", "macos", &labels, 1_000_000_000_500_000_000).unwrap();
    assert_eq!(config.created, "2001-09-09T01:46:40.500+00:00");
    assert_eq!((config.architecture.as_str(), config.os.as_str()), ("arm64", "macos"));
    let none = ImageBuilder::new().config_at("/src", "arm64", "macos", &labels, 0);
    assert!(none.is_err());

    let (blob, manifest) = b.manifest(&s, b"{}");
    assert_eq!(manifest.schema_version, 2);
    assert_eq!(manifest.media_type, MANIFEST_MEDIA_TYPE);
    assert_eq!(manifest.config.digest, blob.descriptor.digest);
    assert_eq!(manifest.layers.len(), 2);
    assert_eq!(manifest.layers[0].media_type, LAYER_MEDIA_TYPE);
    assert_eq!(manifest.layers[0].annotation(TITLE), Some("weights/model.gguf"));
    assert_eq!(manifest.layers[0].digest, first.blob.descriptor.digest);
    assert_eq!(manifest.layers[1].annotation(TITLE), Some("README.md"));

    let w = s.build(b"manifest", "registry.example.com/mymodel:v1");
    assert_eq!(s.find("registry.example.com/mymodel:v1").unwrap().digest, w.descriptor.digest);
}

#[test]
fn an_image_needs_files() {
    let b = ImageBuilder::new();
    let e = b.config("./empty", "x86_64", "linux", &StringMap::new()).unwrap_err();
    assert_eq!(e.message(), "no files found in ./empty");
}

#[test]
fn names_that_leave_the_archive_are_refused() {
    let s = store();
    let mut b = ImageBuilder::new();
    for name in ["../x", "/abs", "", "a/../b"] {
        let e = b.add_file(&s, name, b"x").unwrap_err();
        assert!(matches!(e, StoreError::BadName(_)));
        assert!(!e.message().is_empty());
    }
    assert!(matches!(
        b.config("d", "a", "o", &StringMap::new()),
        Err(StoreError::NoFiles(_))
    ));
}
