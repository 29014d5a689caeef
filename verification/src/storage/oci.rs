//! The local OCI image layout: its index, its blobs and its images.
//!
//! Layout on disk:
//!
//! ```text
//! <store-root>/
//!   oci-layout             {"imageLayoutVersion":"1.0.0"}
//!   index.json             OCI image index
//!   blobs/
//!     sha256/
//!       <hex>              one file per blob
//! ```
//!
//! A store works on the index as it was read; the caller reads and writes the
//! files.

use vstd::prelude::*;
use vstd::utf8;
use crate::archive;
use crate::clock;
use crate::hash;
use crate::paths;
use crate::string_map::StringMap;
use crate::text;

verus! {

/// Annotation that holds the reference of an image.
pub const REF_NAME: &'static str = "org.opencontainers.image.ref.name";

/// Annotation that holds the file name of a layer.
pub const TITLE: &'static str = "org.opencontainers.image.title";

/// Media type of an image index.
pub const INDEX_MEDIA_TYPE: &'static str = "application/vnd.oci.image.index.v1+json";

/// Media type of an image manifest.
pub const MANIFEST_MEDIA_TYPE: &'static str = "application/vnd.oci.image.manifest.v1+json";

/// Media type of an image configuration.
pub const CONFIG_MEDIA_TYPE: &'static str = "application/vnd.oci.image.config.v1+json";

/// Media type of an uncompressed tar layer.
pub const LAYER_MEDIA_TYPE: &'static str = "application/vnd.oci.image.layer.v1.tar";

/// Contents of the file that marks a layout.
pub const LAYOUT_MARKER: &'static str = "{\"imageLayoutVersion\":\"1.0.0\"}";

// ---------------------------------------------------------------------------
// Minimal OCI types
// ---------------------------------------------------------------------------

/// Points to a blob.
#[derive(Debug)]
pub struct Descriptor {
    pub media_type: String,
    pub digest: String,
    pub size: u64,
    pub annotations: Option<StringMap>,
}

/// What a descriptor says.
pub struct DescriptorModel {
    pub media_type: Seq<char>,
    pub digest: Seq<char>,
    pub size: u64,
    pub annotations: Option<Map<Seq<char>, Seq<char>>>,
}

impl View for Descriptor {
    type V = DescriptorModel;

    open spec fn view(&self) -> DescriptorModel {
        DescriptorModel {
            media_type: self.media_type@,
            digest: self.digest@,
            size: self.size,
            annotations: match self.annotations {
                Some(a) => Some(a@),
                None => None,
            },
        }
    }
}

impl Clone for Descriptor {
    fn clone(&self) -> (r: Self)
        ensures
            r@ == self@,
    {
        Descriptor {
            media_type: self.media_type.clone(),
            digest: self.digest.clone(),
            size: self.size,
            annotations: match &self.annotations {
                Some(a) => Some(a.clone()),
                None => None,
            },
        }
    }
}

/// What a list of descriptors says.
pub open spec fn models(v: Seq<Descriptor>) -> Seq<DescriptorModel> {
    v.map_values(|d: Descriptor| d@)
}

/// The index of a layout: the manifests of its images.
#[derive(Debug)]
pub struct Index {
    pub schema_version: u32,
    pub media_type: String,
    pub manifests: Vec<Descriptor>,
}

/// What an index says.
pub struct IndexModel {
    pub schema_version: u32,
    pub media_type: Seq<char>,
    pub manifests: Seq<DescriptorModel>,
}

impl View for Index {
    type V = IndexModel;

    open spec fn view(&self) -> IndexModel {
        IndexModel {
            schema_version: self.schema_version,
            media_type: self.media_type@,
            manifests: models(self.manifests@),
        }
    }
}

/// The index of a new layout.
pub open spec fn empty_index() -> IndexModel {
    IndexModel {
        schema_version: 2,
        media_type: INDEX_MEDIA_TYPE@,
        manifests: Seq::<DescriptorModel>::empty(),
    }
}

impl Default for Index {
    fn default() -> (r: Self)
        ensures
            r@ == empty_index(),
    {
        let r = Index {
            schema_version: 2,
            media_type: INDEX_MEDIA_TYPE.to_string(),
            manifests: Vec::new(),
        };
        assert(r@.manifests =~= Seq::<DescriptorModel>::empty());
        r
    }
}

/// The manifest of an image: its configuration and its layers.
#[derive(Debug)]
pub struct Manifest {
    pub schema_version: u32,
    pub media_type: String,
    pub config: Descriptor,
    pub layers: Vec<Descriptor>,
    pub annotations: Option<StringMap>,
}

/// The configuration of an image.
#[derive(Debug)]
pub struct ImageConfig {
    pub created: String,
    pub architecture: String,
    pub os: String,
    pub labels: StringMap,
}

/// Summary of a locally stored image.  Its time of modification is counted in
/// nanoseconds since the start of 1970.
#[derive(Debug)]
pub struct ImageSummary {
    pub reference: String,
    pub digest: String,
    pub media_type: String,
    pub size: u64,
    pub modified_at: Option<i128>,
}

/// Why the store refuses a request.
#[derive(Debug)]
pub enum StoreError {
    /// A digest without a `:`.
    InvalidDigest(String),
    /// No image has this reference.
    NotFound(String),
    /// A directory without files.
    NoFiles(String),
    /// A file name that cannot stand in an archive, for the given reason.
    BadName(String),
}

impl StoreError {
    /// The words of the error.
    pub open spec fn words(self) -> Seq<char> {
        match self {
            StoreError::InvalidDigest(d) => "invalid digest: "@ + d@,
            StoreError::NotFound(r) => "image not found: "@ + r@,
            StoreError::NoFiles(d) => "no files found in "@ + d@,
            StoreError::BadName(e) => e@,
        }
    }

    /// The error as a message.
    pub fn message(&self) -> (r: String)
        ensures
            r@ == self.words(),
    {
        match self {
            StoreError::InvalidDigest(d) => text::concat2("invalid digest: ", d.as_str()),
            StoreError::NotFound(r) => text::concat2("image not found: ", r.as_str()),
            StoreError::NoFiles(d) => text::concat2("no files found in ", d.as_str()),
            StoreError::BadName(e) => e.clone(),
        }
    }
}

// ---------------------------------------------------------------------------
// References
// ---------------------------------------------------------------------------

/// Position of the `:` before the tag of a reference: the last `:`, where it
/// stands behind the last `/` and is not the first character.
pub open spec fn tag_colon(reference: Seq<char>) -> Option<int> {
    match text::last_pos(reference, ':') {
        Some(pos) => {
            let slash = match text::last_pos(reference, '/') {
                Some(s) => s,
                None => 0,
            };
            if pos > slash {
                Some(pos)
            } else {
                None
            }
        },
        None => None,
    }
}

/// The tag of a reference; a reference without one has the tag `latest`.
pub open spec fn tag_of(reference: Seq<char>) -> Seq<char> {
    match tag_colon(reference) {
        Some(pos) => reference.subrange(pos + 1, reference.len() as int),
        None => "latest"@,
    }
}

fn find_tag_colon(v: &Vec<char>) -> (r: Option<usize>)
    ensures
        match r {
            Some(i) => i < v.len() && tag_colon(v@) == Some(i as int),
            None => tag_colon(v@) is None,
        },
{
    match text::rfind_char(v, ':') {
        Some(pos) => {
            let slash: usize = match text::rfind_char(v, '/') {
                Some(s) => s,
                None => 0,
            };
            if pos > slash {
                Some(pos)
            } else {
                None
            }
        },
        None => None,
    }
}

/// The tag of a reference; a reference without one has the tag `latest`.
pub fn tag_from_ref(reference: &str) -> (r: &str)
    ensures
        r@ == tag_of(reference@),
{
    let v: Vec<char> = text::chars_of(reference);
    match find_tag_colon(&v) {
        Some(pos) => reference.substring_char(pos + 1, v.len()),
        None => "latest",
    }
}

/// Whether a reference spells out its tag.
pub fn has_tag(reference: &str) -> (r: bool)
    ensures
        r == (tag_colon(reference@) is Some),
{
    let v: Vec<char> = text::chars_of(reference);
    find_tag_colon(&v).is_some()
}

/// The reference that a descriptor is stored under.
pub open spec fn ref_name(d: DescriptorModel) -> Option<Seq<char>> {
    annotation(d, REF_NAME@)
}

/// The value of an annotation.
pub open spec fn annotation(d: DescriptorModel, key: Seq<char>) -> Option<Seq<char>> {
    match d.annotations {
        Some(a) => if a.contains_key(key) {
            Some(a[key])
        } else {
            None
        },
        None => None,
    }
}

/// Stored under exactly this reference.
pub open spec fn is_named(d: DescriptorModel, reference: Seq<char>) -> bool {
    ref_name(d) == Some(reference)
}

/// Stored under this reference, or under one with this tag.
pub open spec fn matches(d: DescriptorModel, reference: Seq<char>) -> bool {
    match ref_name(d) {
        Some(stored) => stored == reference || tag_of(stored) == reference,
        None => false,
    }
}

impl Descriptor {
    /// The value of an annotation.
    pub fn annotation(&self, key: &str) -> (r: Option<&str>)
        ensures
            text::opt_str(r) == annotation(self@, key@),
    {
        match &self.annotations {
            Some(a) => a.get(key),
            None => None,
        }
    }
}

fn has_name(desc: &Descriptor, reference: &str) -> (r: bool)
    ensures
        r == is_named(desc@, reference@),
{
    match desc.annotation(REF_NAME) {
        Some(stored) => text::same(stored, reference),
        None => false,
    }
}

/// Whether a descriptor is stored under `reference`, or under a reference
/// whose tag is `reference`.
pub fn ref_matches(desc: &Descriptor, reference: &str) -> (r: bool)
    ensures
        r == matches(desc@, reference@),
{
    match desc.annotation(REF_NAME) {
        Some(stored) => text::same(stored, reference) || text::same(
            tag_from_ref(stored),
            reference,
        ),
        None => false,
    }
}

/// The algorithm and the hexadecimal digits of a digest.
pub fn split_digest(digest: &str) -> (r: Result<(&str, &str), StoreError>)
    ensures
        match r {
            Ok(p) => text::split_at_first(digest@, ':') == Some((p.0@, p.1@)),
            Err(e) => text::split_at_first(digest@, ':') is None && (e matches
                StoreError::InvalidDigest(d) && d@ == digest@),
        },
{
    match text::split_once(digest, ':') {
        Some(p) => Ok(p),
        None => Err(StoreError::InvalidDigest(digest.to_string())),
    }
}

// ---------------------------------------------------------------------------
// Meaning of the operations on the index
// ---------------------------------------------------------------------------

/// Position of the first manifest stored under exactly `reference`.
pub open spec fn named_pos(ms: Seq<DescriptorModel>, reference: Seq<char>) -> Option<int>
    decreases ms.len(),
{
    if ms.len() == 0 {
        None
    } else {
        match named_pos(ms.drop_last(), reference) {
            Some(i) => Some(i),
            None => if is_named(ms.last(), reference) {
                Some(ms.len() - 1)
            } else {
                None
            },
        }
    }
}

/// Position of the first manifest that matches `reference`.
pub open spec fn matching_pos(ms: Seq<DescriptorModel>, reference: Seq<char>) -> Option<int>
    decreases ms.len(),
{
    if ms.len() == 0 {
        None
    } else {
        match matching_pos(ms.drop_last(), reference) {
            Some(i) => Some(i),
            None => if matches(ms.last(), reference) {
                Some(ms.len() - 1)
            } else {
                None
            },
        }
    }
}

/// The manifest that `reference` stands for: the first one stored under it,
/// or else the first one with that tag.
pub open spec fn lookup(ms: Seq<DescriptorModel>, reference: Seq<char>) -> Option<DescriptorModel> {
    match named_pos(ms, reference) {
        Some(i) => Some(ms[i]),
        None => match matching_pos(ms, reference) {
            Some(i) => Some(ms[i]),
            None => None,
        },
    }
}

/// `d`, stored under `reference`.
pub open spec fn renamed(d: DescriptorModel, reference: Seq<char>) -> DescriptorModel {
    let notes = match d.annotations {
        Some(a) => a,
        None => Map::empty(),
    };
    DescriptorModel { annotations: Some(notes.insert(REF_NAME@, reference)), ..d }
}

/// The manifests with `d` stored under `reference`: in the place of the first
/// one that has this name, or else behind all others.
pub open spec fn tagged(
    ms: Seq<DescriptorModel>,
    d: DescriptorModel,
    reference: Seq<char>,
) -> Seq<DescriptorModel> {
    match named_pos(ms, reference) {
        Some(i) => ms.update(i, renamed(d, reference)),
        None => ms.push(renamed(d, reference)),
    }
}

/// The manifests that do not match `reference`, in their order.
pub open spec fn removed(ms: Seq<DescriptorModel>, reference: Seq<char>) -> Seq<DescriptorModel>
    decreases ms.len(),
{
    if ms.len() == 0 {
        ms
    } else {
        let rest = removed(ms.drop_last(), reference);
        if matches(ms.last(), reference) {
            rest
        } else {
            rest.push(ms.last())
        }
    }
}

/// The reference under which `list` shows a manifest: the one it is stored
/// under, or else its digest.
pub open spec fn shown_name(d: DescriptorModel) -> Seq<char> {
    match ref_name(d) {
        Some(stored) => stored,
        None => d.digest,
    }
}

/// What the position of the first manifest stored under a reference means.
pub proof fn lemma_named_pos(ms: Seq<DescriptorModel>, reference: Seq<char>)
    ensures
        match named_pos(ms, reference) {
            Some(i) => 0 <= i < ms.len() && is_named(ms[i], reference) && forall|j: int|
                0 <= j < i ==> !is_named(#[trigger] ms[j], reference),
            None => forall|j: int| 0 <= j < ms.len() ==> !is_named(#[trigger] ms[j], reference),
        },
    decreases ms.len(),
{
    if ms.len() > 0 {
        let t = ms.drop_last();
        lemma_named_pos(t, reference);
        assert(forall|j: int| 0 <= j < t.len() ==> t[j] == ms[j]);
    }
}

proof fn lemma_named_pos_is(ms: Seq<DescriptorModel>, reference: Seq<char>, i: int)
    requires
        0 <= i < ms.len(),
        is_named(ms[i], reference),
        forall|j: int| 0 <= j < i ==> !is_named(#[trigger] ms[j], reference),
    ensures
        named_pos(ms, reference) == Some(i),
{
    lemma_named_pos(ms, reference);
}

/// What the position of the first manifest that matches a reference means.
pub proof fn lemma_matching_pos(ms: Seq<DescriptorModel>, reference: Seq<char>)
    ensures
        match matching_pos(ms, reference) {
            Some(i) => 0 <= i < ms.len() && matches(ms[i], reference) && forall|j: int|
                0 <= j < i ==> !matches(#[trigger] ms[j], reference),
            None => forall|j: int| 0 <= j < ms.len() ==> !matches(#[trigger] ms[j], reference),
        },
    decreases ms.len(),
{
    if ms.len() > 0 {
        let t = ms.drop_last();
        lemma_matching_pos(t, reference);
        assert(forall|j: int| 0 <= j < t.len() ==> t[j] == ms[j]);
    }
}

// ---------------------------------------------------------------------------
// Blobs
// ---------------------------------------------------------------------------

/// The digest of `data` as a descriptor gives it.
pub open spec fn digest_of(data: Seq<u8>) -> Seq<char> {
    "sha256:"@ + hash::hex_text(hash::sha256_of(data))
}

/// Where the blob with the digits `hex` is kept.
pub open spec fn sha256_path(root: Seq<char>, hex: Seq<char>) -> Seq<char> {
    paths::below(paths::below(paths::below(root, "blobs"@), "sha256"@), hex)
}

/// Where a blob is kept, for a digest that has an algorithm.
pub open spec fn path_of_digest(root: Seq<char>, digest: Seq<char>) -> Option<Seq<char>> {
    match text::split_at_first(digest, ':') {
        Some(p) => Some(paths::below(paths::below(paths::below(root, "blobs"@), p.0), p.1)),
        None => None,
    }
}

/// A blob to be kept: its descriptor and its place.  The data is written to
/// `tmp` and renamed to `path`, unless `path` exists already.
#[derive(Debug)]
pub struct BlobWrite {
    pub descriptor: Descriptor,
    pub path: String,
    pub tmp: String,
}

/// The blob of `data` is kept in the store at `root`.
pub open spec fn keeps(
    w: BlobWrite,
    root: Seq<char>,
    media_type: Seq<char>,
    data: Seq<u8>,
) -> bool {
    &&& w.descriptor@ == (DescriptorModel {
        media_type,
        digest: digest_of(data),
        size: data.len() as u64,
        annotations: None,
    })
    &&& w.path@ == sha256_path(root, hash::hex_text(hash::sha256_of(data)))
}

/// Takes in the contents of a blob piece by piece.
pub struct BlobWriter {
    hasher: sha2::Sha256,
    size: u64,
}

impl View for BlobWriter {
    type V = Seq<u8>;

    closed spec fn view(&self) -> Seq<u8> {
        hash::hashed(self.hasher)
    }
}

impl BlobWriter {
    /// The size has kept up with the data.
    pub closed spec fn well_formed(self) -> bool {
        self.size == self@.len()
    }

    /// A blob without contents so far.
    pub fn new() -> (r: Self)
        ensures
            r.well_formed(),
            r@ == Seq::<u8>::empty(),
    {
        BlobWriter { hasher: hash::hasher(), size: 0 }
    }

    /// Adds a piece.
    pub fn update(&mut self, piece: &[u8])
        requires
            old(self).well_formed(),
            old(self)@.len() + piece@.len() <= u64::MAX,
        ensures
            final(self).well_formed(),
            final(self)@ == old(self)@ + piece@,
    {
        hash::hash_more(&mut self.hasher, piece);
        self.size = self.size + piece.len() as u64;
    }
}

// ---------------------------------------------------------------------------
// OciStore
// ---------------------------------------------------------------------------

/// A store: where it lies, and its index.
#[derive(Debug)]
pub struct OciStore {
    root: String,
    index: Index,
}

/// What a store holds.
pub struct StoreModel {
    pub root: Seq<char>,
    pub index: IndexModel,
}

impl View for OciStore {
    type V = StoreModel;

    closed spec fn view(&self) -> StoreModel {
        StoreModel { root: self.root@, index: self.index@ }
    }
}

impl OciStore {
    /// Opens the store at `root` with the index that was found there.  A store
    /// without one starts with an empty index.
    pub fn open(root: &str, index: Option<Index>) -> (r: Self)
        ensures
            r@.root == root@,
            r@.index == (match index {
                Some(i) => i@,
                None => empty_index(),
            }),
    {
        let index = match index {
            Some(i) => i,
            None => Index::default(),
        };
        OciStore { root: root.to_string(), index }
    }

    /// Where the store lies.
    pub fn root(&self) -> (r: &str)
        ensures
            r@ == self@.root,
    {
        self.root.as_str()
    }

    /// The index.
    pub fn read_index(&self) -> (r: &Index)
        ensures
            r@ == self@.index,
    {
        &self.index
    }

    /// Path of the file that marks the layout.
    pub fn marker_path(&self) -> (r: String)
        ensures
            r@ == paths::below(self@.root, "oci-layout"@),
    {
        paths::join(self.root.as_str(), "oci-layout")
    }

    /// Path of the index.
    pub fn index_path(&self) -> (r: String)
        ensures
            r@ == paths::below(self@.root, "index.json"@),
    {
        paths::join(self.root.as_str(), "index.json")
    }

    /// Path to which the index is written before it takes its place.
    pub fn index_tmp_path(&self) -> (r: String)
        ensures
            r@ == paths::below(self@.root, "index.json.tmp"@),
    {
        paths::join(self.root.as_str(), "index.json.tmp")
    }

    /// Directory of the blobs.
    pub fn blob_dir(&self) -> (r: String)
        ensures
            r@ == paths::below(paths::below(self@.root, "blobs"@), "sha256"@),
    {
        paths::join(paths::join(self.root.as_str(), "blobs").as_str(), "sha256")
    }

    /// Path to which process `pid` writes a blob whose digest is not known yet.
    pub fn stream_path(&self, pid: u32) -> (r: String)
        ensures
            r@ == sha256_path(self@.root, "tmp-"@ + text::decimal(pid as nat)),
    {
        let name: String = text::concat2("tmp-", text::decimal_of(pid as u64).as_str());
        paths::join(self.blob_dir().as_str(), name.as_str())
    }

    /// Path of the blob with the given digest.
    pub fn blob_path(&self, digest: &str) -> (r: Result<String, StoreError>)
        ensures
            match r {
                Ok(p) => path_of_digest(self@.root, digest@) == Some(p@),
                Err(e) => path_of_digest(self@.root, digest@) is None && (e matches
                    StoreError::InvalidDigest(d) && d@ == digest@),
            },
    {
        let parts: (&str, &str) = match split_digest(digest) {
            Ok(p) => p,
            Err(e) => {
                return Err(e);
            },
        };
        let blobs: String = paths::join(self.root.as_str(), "blobs");
        let dir: String = paths::join(blobs.as_str(), parts.0);
        Ok(paths::join(dir.as_str(), parts.1))
    }

    fn place(&self, media_type: &str, sum: &Vec<u8>, size: u64) -> (r: BlobWrite)
        ensures
            r.descriptor@ == (DescriptorModel {
                media_type: media_type@,
                digest: "sha256:"@ + hash::hex_text(sum@),
                size,
                annotations: None,
            }),
            r.path@ == sha256_path(self@.root, hash::hex_text(sum@)),
            r.tmp@ == r.path@ + ".tmp"@,
    {
        let hex: String = hash::hex_encode(sum);
        let path: String = paths::join(self.blob_dir().as_str(), hex.as_str());
        let tmp: String = text::concat2(path.as_str(), ".tmp");
        BlobWrite {
            descriptor: Descriptor {
                media_type: media_type.to_string(),
                digest: text::concat2("sha256:", hex.as_str()),
                size,
                annotations: None,
            },
            path,
            tmp,
        }
    }

    /// Where and under which descriptor `data` is kept as a blob.
    pub fn write_blob(&self, media_type: &str, data: &[u8]) -> (r: BlobWrite)
        ensures
            keeps(r, self@.root, media_type@, data@),
            r.tmp@ == r.path@ + ".tmp"@,
    {
        let sum: Vec<u8> = hash::sha256(data);
        self.place(media_type, &sum, data.len() as u64)
    }

    /// Where and under which descriptor a blob is kept that was read piece by
    /// piece.  The pieces stand at `stream_path(pid)` until then.
    pub fn write_blob_file(&self, media_type: &str, contents: BlobWriter, pid: u32) -> (r: BlobWrite)
        requires
            contents.well_formed(),
        ensures
            keeps(r, self@.root, media_type@, contents@),
            r.tmp@ == sha256_path(self@.root, "tmp-"@ + text::decimal(pid as nat)),
    {
        let size: u64 = contents.size;
        let sum: Vec<u8> = hash::hash_finish(contents.hasher);
        let mut r: BlobWrite = self.place(media_type, &sum, size);
        r.tmp = self.stream_path(pid);
        r
    }

    /// Path from which a blob is read.
    pub fn read_blob(&self, digest: &str) -> (r: Result<String, StoreError>)
        ensures
            match r {
                Ok(p) => path_of_digest(self@.root, digest@) == Some(p@),
                Err(e) => path_of_digest(self@.root, digest@) is None && (e matches
                    StoreError::InvalidDigest(d) && d@ == digest@),
            },
    {
        self.blob_path(digest)
    }

    /// Where and under which descriptor the text of a manifest is kept.
    pub fn write_manifest(&self, manifest: &[u8]) -> (r: BlobWrite)
        ensures
            keeps(r, self@.root, MANIFEST_MEDIA_TYPE@, manifest@),
            r.tmp@ == r.path@ + ".tmp"@,
    {
        self.write_blob(MANIFEST_MEDIA_TYPE, manifest)
    }

    /// Path from which the manifest of an image is read.
    pub fn read_manifest(&self, digest: &str) -> (r: Result<String, StoreError>)
        ensures
            match r {
                Ok(p) => path_of_digest(self@.root, digest@) == Some(p@),
                Err(e) => path_of_digest(self@.root, digest@) is None && (e matches
                    StoreError::InvalidDigest(d) && d@ == digest@),
            },
    {
        self.read_blob(digest)
    }

    fn named(&self, reference: &str) -> (r: Option<usize>)
        ensures
            match r {
                Some(i) => i < self.index.manifests@.len() && named_pos(
                    self@.index.manifests,
                    reference@,
                ) == Some(i as int),
                None => named_pos(self@.index.manifests, reference@) is None,
            },
    {
        let ghost ms = self@.index.manifests;
        let mut i: usize = 0;
        while i < self.index.manifests.len()
            invariant
                i <= self.index.manifests.len(),
                ms == models(self.index.manifests@),
                named_pos(ms.subrange(0, i as int), reference@) is None,
            decreases self.index.manifests.len() - i,
        {
            proof {
                assert(ms.subrange(0, i + 1).drop_last() =~= ms.subrange(0, i as int));
                lemma_named_pos(ms.subrange(0, i as int), reference@);
            }
            if has_name(&self.index.manifests[i], reference) {
                proof {
                    assert forall|j: int| 0 <= j < i implies !is_named(
                        #[trigger] ms[j],
                        reference@,
                    ) by {
                        assert(ms.subrange(0, i as int)[j] == ms[j]);
                    }
                    lemma_named_pos_is(ms, reference@, i as int);
                }
                return Some(i);
            }
            i += 1;
        }
        assert(ms.subrange(0, i as int) =~= ms);
        None
    }

    fn matching(&self, reference: &str) -> (r: Option<usize>)
        ensures
            match r {
                Some(i) => i < self.index.manifests@.len() && matching_pos(
                    self@.index.manifests,
                    reference@,
                ) == Some(i as int),
                None => matching_pos(self@.index.manifests, reference@) is None,
            },
    {
        let ghost ms = self@.index.manifests;
        let mut i: usize = 0;
        while i < self.index.manifests.len()
            invariant
                i <= self.index.manifests.len(),
                ms == models(self.index.manifests@),
                forall|j: int| 0 <= j < i ==> !matches(#[trigger] ms[j], reference@),
            decreases self.index.manifests.len() - i,
        {
            if ref_matches(&self.index.manifests[i], reference) {
                proof {
                    lemma_matching_pos(ms, reference@);
                    assert(matches(ms[i as int], reference@));
                }
                return Some(i);
            }
            i += 1;
        }
        proof {
            lemma_matching_pos(ms, reference@);
        }
        None
    }

    /// Stores `desc` under `reference`, replacing the entry that has this name
    /// already.  The reference is kept as it stands, so that `list` shows it
    /// verbatim.
    pub fn tag(&mut self, desc: Descriptor, reference: &str)
        ensures
            final(self)@.root == old(self)@.root,
            final(self)@.index == (IndexModel {
                manifests: tagged(old(self)@.index.manifests, desc@, reference@),
                ..old(self)@.index
            }),
    {
        let mut notes: StringMap = match desc.annotations {
            Some(a) => a,
            None => StringMap::new(),
        };
        notes.insert(REF_NAME.to_string(), reference.to_string());
        let entry = Descriptor {
            media_type: desc.media_type,
            digest: desc.digest,
            size: desc.size,
            annotations: Some(notes),
        };
        assert(entry@ == renamed(desc@, reference@));
        let ghost before = self@.index.manifests;
        match self.named(reference) {
            Some(i) => {
                self.index.manifests.set(i, entry);
                assert(self@.index.manifests =~= before.update(i as int, entry@));
            },
            None => {
                self.index.manifests.push(entry);
                assert(self@.index.manifests =~= before.push(entry@));
            },
        }
    }

    /// Finds the descriptor for `reference`: the one stored under it or, as a
    /// fallback, the first one whose tag it is.
    pub fn find(&self, reference: &str) -> (r: Result<Descriptor, StoreError>)
        ensures
            match r {
                Ok(d) => lookup(self@.index.manifests, reference@) == Some(d@),
                Err(e) => lookup(self@.index.manifests, reference@) is None && (e matches
                    StoreError::NotFound(n) && n@ == reference@),
            },
    {
        let found: Option<usize> = match self.named(reference) {
            Some(i) => Some(i),
            None => self.matching(reference),
        };
        match found {
            Some(i) => Ok(self.index.manifests[i].clone()),
            None => Err(StoreError::NotFound(reference.to_string())),
        }
    }

    /// Summaries of all images, in the order of the index.  `modified` gives
    /// the time of modification of the manifest of each, where it is known.
    pub fn list(&self, modified: &Vec<Option<i128>>) -> (r: Vec<ImageSummary>)
        ensures
            r@.len() == self@.index.manifests.len(),
            forall|i: int|
                0 <= i < r@.len() ==> {
                    let m = self@.index.manifests[i];
                    &&& (#[trigger] r@[i]).reference@ == shown_name(m)
                    &&& r@[i].digest@ == m.digest
                    &&& r@[i].media_type@ == m.media_type
                    &&& r@[i].size == m.size
                    &&& r@[i].modified_at == (if i < modified@.len() {
                        modified@[i]
                    } else {
                        None
                    })
                },
    {
        let ghost ms = self@.index.manifests;
        let mut r: Vec<ImageSummary> = Vec::new();
        let mut i: usize = 0;
        while i < self.index.manifests.len()
            invariant
                i <= self.index.manifests.len(),
                ms == models(self.index.manifests@),
                r@.len() == i,
                forall|j: int|
                    0 <= j < i ==> {
                        &&& (#[trigger] r@[j]).reference@ == shown_name(ms[j])
                        &&& r@[j].digest@ == ms[j].digest
                        &&& r@[j].media_type@ == ms[j].media_type
                        &&& r@[j].size == ms[j].size
                        &&& r@[j].modified_at == (if j < modified@.len() {
                            modified@[j]
                        } else {
                            None
                        })
                    },
            decreases self.index.manifests.len() - i,
        {
            let m: &Descriptor = &self.index.manifests[i];
            assert(ms[i as int] == m@);
            let reference: String = match m.annotation(REF_NAME) {
                Some(stored) => stored.to_string(),
                None => m.digest.clone(),
            };
            let modified_at: Option<i128> = if i < modified.len() {
                modified[i]
            } else {
                None
            };
            r.push(
                ImageSummary {
                    reference,
                    digest: m.digest.clone(),
                    media_type: m.media_type.clone(),
                    size: m.size,
                    modified_at,
                },
            );
            i += 1;
        }
        r
    }

    /// Removes what matches `reference` from the index.  Blobs stay.
    pub fn remove(&mut self, reference: &str) -> (r: Result<(), StoreError>)
        ensures
            final(self)@.root == old(self)@.root,
            final(self)@.index == (IndexModel {
                manifests: removed(old(self)@.index.manifests, reference@),
                ..old(self)@.index
            }),
            match r {
                Ok(_) => matching_pos(old(self)@.index.manifests, reference@) is Some,
                Err(e) => matching_pos(old(self)@.index.manifests, reference@) is None && (e matches
                    StoreError::NotFound(n) && n@ == reference@),
            },
    {
        let ghost ms = self@.index.manifests;
        let mut kept: Vec<Descriptor> = Vec::new();
        let mut found: bool = false;
        let mut i: usize = 0;
        while i < self.index.manifests.len()
            invariant
                i <= self.index.manifests.len(),
                ms == models(self.index.manifests@),
                self@ == old(self)@,
                models(kept@) == removed(ms.subrange(0, i as int), reference@),
                found == (matching_pos(ms.subrange(0, i as int), reference@) is Some),
            decreases self.index.manifests.len() - i,
        {
            assert(ms.subrange(0, i + 1).drop_last() =~= ms.subrange(0, i as int));
            let m: &Descriptor = &self.index.manifests[i];
            assert(ms[i as int] == m@);
            if ref_matches(m, reference) {
                found = true;
            } else {
                let ghost before = kept@;
                kept.push(m.clone());
                assert(models(kept@) =~= models(before).push(m@));
            }
            i += 1;
        }
        assert(ms.subrange(0, i as int) =~= ms);
        self.index.manifests = kept;
        if found {
            Ok(())
        } else {
            Err(StoreError::NotFound(reference.to_string()))
        }
    }
}

impl OciStore {
    /// Completes an image: its manifest, whose text is given, is kept as a blob
    /// and stored under `reference`.
    pub fn build(&mut self, manifest: &[u8], reference: &str) -> (r: BlobWrite)
        ensures
            keeps(r, old(self)@.root, MANIFEST_MEDIA_TYPE@, manifest@),
            r.tmp@ == r.path@ + ".tmp"@,
            final(self)@.root == old(self)@.root,
            final(self)@.index == (IndexModel {
                manifests: tagged(old(self)@.index.manifests, r.descriptor@, reference@),
                ..old(self)@.index
            }),
    {
        let r: BlobWrite = self.write_manifest(manifest);
        self.tag(r.descriptor.clone(), reference);
        r
    }
}

// ---------------------------------------------------------------------------
// Building an image
// ---------------------------------------------------------------------------

/// A layer to be kept: its blob, and the data of the blob.
#[derive(Debug)]
pub struct LayerWrite {
    pub blob: BlobWrite,
    pub data: Vec<u8>,
}

/// The layers of an image that is being built.
#[derive(Debug)]
pub struct ImageBuilder {
    layers: Vec<Descriptor>,
}

impl View for ImageBuilder {
    type V = Seq<DescriptorModel>;

    closed spec fn view(&self) -> Seq<DescriptorModel> {
        models(self.layers@)
    }
}

/// The layer of the file `name` whose archive is `data`.
pub open spec fn layer_of(name: Seq<char>, data: Seq<u8>) -> DescriptorModel {
    DescriptorModel {
        media_type: LAYER_MEDIA_TYPE@,
        digest: digest_of(data),
        size: data.len() as u64,
        annotations: Some(Map::empty().insert(TITLE@, name)),
    }
}

impl ImageBuilder {
    /// An image without layers.
    pub fn new() -> (r: Self)
        ensures
            r@ == Seq::<DescriptorModel>::empty(),
    {
        let r = ImageBuilder { layers: Vec::new() };
        assert(r@ =~= Seq::<DescriptorModel>::empty());
        r
    }

    /// Adds a file as one layer: an uncompressed tar archive that holds it
    /// alone, with its path relative to the packaged directory as the title.
    pub fn add_file(&mut self, store: &OciStore, name: &str, contents: &[u8]) -> (r: Result<
        LayerWrite,
        StoreError,
    >)
        ensures
            match r {
                Ok(w) => {
                    &&& final(self)@ == old(self)@.push(layer_of(name@, w.data@))
                    &&& keeps(w.blob, store@.root, LAYER_MEDIA_TYPE@, w.data@)
                    &&& w.blob.tmp@ == w.blob.path@ + ".tmp"@
                    &&& exists|h: Seq<u8>|
                        h.len() == 512 && w.data@ == #[trigger] archive::one_entry(h, contents@)
                },
                Err(e) => final(self)@ == old(self)@ && e is BadName,
            },
            archive::packs_here(
                match r {
                    Ok(w) => Some(w.data@),
                    Err(_) => None,
                },
                name@,
                contents@,
            ),
    {
        let data: Vec<u8> = match archive::make_single_file_tar(name, contents) {
            Ok(d) => d,
            Err(e) => {
                return Err(StoreError::BadName(e));
            },
        };
        let blob: BlobWrite = store.write_blob(LAYER_MEDIA_TYPE, data.as_slice());
        let mut notes: StringMap = StringMap::new();
        notes.insert(TITLE.to_string(), name.to_string());
        let mut layer: Descriptor = blob.descriptor.clone();
        layer.annotations = Some(notes);
        assert(layer@ == layer_of(name@, data@));
        let ghost before = self@;
        self.layers.push(layer);
        assert(self@ =~= before.push(layer@));
        Ok(LayerWrite { blob, data })
    }

    /// The configuration of the image, created so many nanoseconds behind the
    /// start of 1970.  An image needs a layer: without one there were no files in
    /// `src_dir`.
    pub fn config_at(
        &self,
        src_dir: &str,
        architecture: &str,
        os: &str,
        labels: &StringMap,
        nanos: u128,
    ) -> (r: Result<ImageConfig, StoreError>)
        ensures
            match r {
                Ok(c) => {
                    &&& self@.len() > 0
                    &&& c.created@ == clock::exact_moment(nanos)
                    &&& c.created@.len() >= 25
                    &&& c.architecture@ == architecture@
                    &&& c.os@ == os@
                    &&& c.labels@ == labels@
                },
                Err(e) => self@.len() == 0 && (e matches StoreError::NoFiles(d) && d@ == src_dir@),
            },
    {
        if self.layers.is_empty() {
            return Err(StoreError::NoFiles(src_dir.to_string()));
        }
        Ok(
            ImageConfig {
                created: clock::exact_moment_text(nanos),
                architecture: architecture.to_string(),
                os: os.to_string(),
                labels: labels.clone(),
            },
        )
    }

    /// The configuration of the image, created now.  An image needs a layer:
    /// without one there were no files in `src_dir`.
    pub fn config(&self, src_dir: &str, architecture: &str, os: &str, labels: &StringMap) -> (r:
        Result<ImageConfig, StoreError>)
        ensures
            match r {
                Ok(c) => {
                    &&& self@.len() > 0
                    &&& exists|nanos: u128| c.created@ == #[trigger] clock::exact_moment(nanos)
                    &&& c.created@.len() >= 25
                    &&& c.architecture@ == architecture@
                    &&& c.os@ == os@
                    &&& c.labels@ == labels@
                },
                Err(e) => self@.len() == 0 && (e matches StoreError::NoFiles(d) && d@ == src_dir@),
            },
    {
        self.config_at(src_dir, architecture, os, labels, clock::nanos_now())
    }

    /// The manifest of the image, for the text of its configuration, and the
    /// blob in which that text is kept.
    pub fn manifest(self, store: &OciStore, config: &[u8]) -> (r: (BlobWrite, Manifest))
        ensures
            keeps(r.0, store@.root, CONFIG_MEDIA_TYPE@, config@),
            r.0.tmp@ == r.0.path@ + ".tmp"@,
            r.1.schema_version == 2,
            r.1.media_type@ == MANIFEST_MEDIA_TYPE@,
            r.1.config@ == r.0.descriptor@,
            models(r.1.layers@) == self@,
            r.1.annotations is None,
    {
        let blob: BlobWrite = store.write_blob(CONFIG_MEDIA_TYPE, config);
        let manifest = Manifest {
            schema_version: 2,
            media_type: MANIFEST_MEDIA_TYPE.to_string(),
            config: blob.descriptor.clone(),
            layers: self.layers,
            annotations: None,
        };
        (blob, manifest)
    }
}

// ---------------------------------------------------------------------------
// Laws
// ---------------------------------------------------------------------------

/// What is stored under a reference is found under it.
pub proof fn tagged_image_is_found(
    ms: Seq<DescriptorModel>,
    d: DescriptorModel,
    reference: Seq<char>,
)
    ensures
        lookup(tagged(ms, d, reference), reference) == Some(renamed(d, reference)),
{
    lemma_named_pos(ms, reference);
    let after = tagged(ms, d, reference);
    let at = match named_pos(ms, reference) {
        Some(i) => i,
        None => ms.len() as int,
    };
    assert forall|j: int| 0 <= j < at implies !is_named(#[trigger] after[j], reference) by {
        assert(after[j] == ms[j]);
    }
    lemma_named_pos_is(after, reference, at);
}

/// Storing an image under one reference leaves every other reference that
/// names an image with the image it had.
pub proof fn tag_keeps_other_images(
    ms: Seq<DescriptorModel>,
    d: DescriptorModel,
    reference: Seq<char>,
    other: Seq<char>,
)
    requires
        other != reference,
        named_pos(ms, other) is Some,
    ensures
        lookup(tagged(ms, d, reference), other) == lookup(ms, other),
{
    lemma_named_pos(ms, reference);
    lemma_named_pos(ms, other);
    let after = tagged(ms, d, reference);
    let at = named_pos(ms, other)->0;
    assert(after[at] == ms[at]);
    assert forall|j: int| 0 <= j < at implies !is_named(#[trigger] after[j], other) by {
        assert(!is_named(ms[j], other));
    }
    lemma_named_pos_is(after, other, at);
}

/// Storing the same image twice under a reference is storing it once.
pub proof fn tag_twice_is_tag_once(
    ms: Seq<DescriptorModel>,
    d: DescriptorModel,
    reference: Seq<char>,
)
    ensures
        tagged(tagged(ms, d, reference), d, reference) == tagged(ms, d, reference),
{
    lemma_named_pos(ms, reference);
    let after = tagged(ms, d, reference);
    let at = match named_pos(ms, reference) {
        Some(i) => i,
        None => ms.len() as int,
    };
    assert forall|j: int| 0 <= j < at implies !is_named(#[trigger] after[j], reference) by {
        assert(after[j] == ms[j]);
    }
    lemma_named_pos_is(after, reference, at);
    assert(after.update(at, renamed(d, reference)) =~= after);
}

/// The reference under which an image is stored is shown verbatim.
pub proof fn tagged_image_is_shown(
    ms: Seq<DescriptorModel>,
    d: DescriptorModel,
    reference: Seq<char>,
)
    ensures
        exists|i: int|
            0 <= i < tagged(ms, d, reference).len() && #[trigger] tagged(ms, d, reference)[i]
                == renamed(d, reference),
        shown_name(renamed(d, reference)) == reference,
{
    lemma_named_pos(ms, reference);
    let after = tagged(ms, d, reference);
    let at = match named_pos(ms, reference) {
        Some(i) => i,
        None => ms.len() as int,
    };
    assert(after[at] == renamed(d, reference));
}

proof fn lemma_removed(ms: Seq<DescriptorModel>, reference: Seq<char>)
    ensures
        removed(ms, reference).len() <= ms.len(),
        forall|j: int|
            0 <= j < removed(ms, reference).len() ==> !matches(
                #[trigger] removed(ms, reference)[j],
                reference,
            ),
        (forall|j: int| 0 <= j < ms.len() ==> !matches(#[trigger] ms[j], reference)) ==> removed(
            ms,
            reference,
        ) == ms,
    decreases ms.len(),
{
    if ms.len() > 0 {
        let t = ms.drop_last();
        lemma_removed(t, reference);
        if forall|j: int| 0 <= j < ms.len() ==> !matches(#[trigger] ms[j], reference) {
            assert forall|j: int| 0 <= j < t.len() implies !matches(#[trigger] t[j], reference) by {
                assert(t[j] == ms[j]);
            }
            assert(!matches(ms[ms.len() - 1], reference));
            assert(t.push(ms.last()) =~= ms);
        }
    }
}

/// A removed image is no longer found.
pub proof fn removed_image_is_gone(ms: Seq<DescriptorModel>, reference: Seq<char>)
    ensures
        lookup(removed(ms, reference), reference) is None,
        matching_pos(removed(ms, reference), reference) is None,
{
    lemma_removed(ms, reference);
    let after = removed(ms, reference);
    lemma_named_pos(after, reference);
    lemma_matching_pos(after, reference);
}

/// A refused removal changes nothing.
pub proof fn refused_removal_changes_nothing(ms: Seq<DescriptorModel>, reference: Seq<char>)
    requires
        matching_pos(ms, reference) is None,
    ensures
        removed(ms, reference) == ms,
{
    lemma_matching_pos(ms, reference);
    lemma_removed(ms, reference);
}

/// A removal leaves every image that does not match with its reference.
pub proof fn removal_keeps_other_images(
    ms: Seq<DescriptorModel>,
    reference: Seq<char>,
    other: Seq<char>,
)
    requires
        named_pos(ms, other) is Some,
        other != reference,
        tag_of(other) != reference,
    ensures
        lookup(removed(ms, reference), other) == lookup(ms, other),
{
    lemma_removed_named(ms, reference, other);
}

/// A removal makes nothing match that did not match before.
pub proof fn removal_brings_nothing_back(
    ms: Seq<DescriptorModel>,
    reference: Seq<char>,
    other: Seq<char>,
)
    requires
        matching_pos(ms, other) is None,
    ensures
        matching_pos(removed(ms, reference), other) is None,
    decreases ms.len(),
{
    if ms.len() > 0 {
        let t = ms.drop_last();
        removal_brings_nothing_back(t, reference, other);
        let rest = removed(t, reference);
        if !matches(ms.last(), reference) {
            assert(rest.push(ms.last()).drop_last() =~= rest);
        }
    }
}

/// What is first under a name that does not match stays first under it.
proof fn lemma_removed_named(ms: Seq<DescriptorModel>, reference: Seq<char>, other: Seq<char>)
    requires
        other != reference,
        tag_of(other) != reference,
    ensures
        match named_pos(ms, other) {
            Some(i) => 0 <= i < ms.len() && (named_pos(removed(ms, reference), other) matches Some(j)
                && 0 <= j < removed(ms, reference).len() && removed(ms, reference)[j] == ms[i]),
            None => named_pos(removed(ms, reference), other) is None,
        },
    decreases ms.len(),
{
    if ms.len() > 0 {
        let t = ms.drop_last();
        lemma_removed_named(t, reference, other);
        let rest = removed(t, reference);
        if !matches(ms.last(), reference) {
            assert(rest.push(ms.last()).drop_last() =~= rest);
        }
    }
}

/// Removing a reference that nothing matched before it was stored undoes the
/// storing.
pub proof fn removal_undoes_tag(ms: Seq<DescriptorModel>, d: DescriptorModel, reference: Seq<char>)
    requires
        matching_pos(ms, reference) is None,
    ensures
        removed(tagged(ms, d, reference), reference) == ms,
{
    lemma_matching_pos(ms, reference);
    lemma_named_pos(ms, reference);
    lemma_removed(ms, reference);
    assert(named_pos(ms, reference) is None) by {
        if let Some(i) = named_pos(ms, reference) {
            assert(matches(ms[i], reference));
        }
    }
    let after = tagged(ms, d, reference);
    assert(after.drop_last() =~= ms);
    assert(matches(after.last(), reference));
}

/// The layers of files, given as their names and archives.
pub open spec fn layers_of(files: Seq<(Seq<char>, Seq<u8>)>) -> Seq<DescriptorModel> {
    files.map_values(|f: (Seq<char>, Seq<u8>)| layer_of(f.0, f.1))
}

/// Every file becomes one layer: the layers of an image are those of its files
/// in turn, each with the name of its file as the title.
pub proof fn every_file_becomes_a_layer(
    files: Seq<(Seq<char>, Seq<u8>)>,
    name: Seq<char>,
    data: Seq<u8>,
)
    ensures
        layers_of(files).len() == files.len(),
        layers_of(files.push((name, data))) == layers_of(files).push(layer_of(name, data)),
        annotation(layer_of(name, data), TITLE@) == Some(name),
{
    assert(layers_of(files.push((name, data))) =~= layers_of(files).push(layer_of(name, data)));
}

/// A blob is read from where it was written: the path that the digest in its
/// descriptor leads to is the path at which it is kept.
pub proof fn blob_is_read_where_it_is_written(
    w: BlobWrite,
    root: Seq<char>,
    media_type: Seq<char>,
    data: Seq<u8>,
)
    requires
        keeps(w, root, media_type, data),
    ensures
        path_of_digest(root, w.descriptor.digest@) == Some(w.path@),
{
    reveal_strlit("sha256:");
    reveal_strlit("sha256");
    let hex = hash::hex_text(hash::sha256_of(data));
    let digest = digest_of(data);
    text::lemma_first_pos(digest, ':', 6);
    assert(digest.subrange(0, 6) =~= "sha256"@);
    assert(digest.subrange(7, digest.len() as int) =~= hex);
}

/// The same contents give the same blob, whether they are written at once or
/// piece by piece.
pub proof fn same_contents_same_blob(
    a: BlobWrite,
    b: BlobWrite,
    root: Seq<char>,
    media_type: Seq<char>,
    data: Seq<u8>,
)
    requires
        keeps(a, root, media_type, data),
        keeps(b, root, media_type, data),
    ensures
        a.descriptor@ == b.descriptor@,
        a.path@ == b.path@,
{
}

/// What a list of descriptors says is what each of them says, in their order.
pub proof fn every_descriptor_is_said(v: Seq<Descriptor>)
    ensures
        models(v).len() == v.len(),
        forall|i: int| 0 <= i < v.len() ==> #[trigger] models(v)[i] == v[i]@,
{
}

/// The tag of a reference is what stands behind its last `:`, where no `/` follows;
/// without one the tag is `latest`.
pub proof fn tag_stands_behind_the_colon(repo: Seq<char>, tag: Seq<char>)
    requires
        repo.len() > 0,
        !tag.contains(':'),
        !tag.contains('/'),
    ensures
        tag_of(repo + seq![':'] + tag) == tag,
        !repo.contains(':') ==> tag_of(repo) == "latest"@ && tag_colon(repo) is None,
        tag_of(repo + seq!['/'] + tag) == "latest"@,
{
    let reference = repo + seq![':'] + tag;
    let n = repo.len() as int;
    assert forall|j: int| n < j < reference.len() implies reference[j] != ':' && reference[j] != '/' by {
        assert(reference[j] == tag[j - n - 1]);
        assert(tag.contains(tag[j - n - 1]));
    }
    text::lemma_last_pos(reference, ':', n);
    text::lemma_last_pos_holds(reference, '/');
    assert(reference.subrange(n + 1, reference.len() as int) =~= tag);
    if !repo.contains(':') {
        assert forall|j: int| 0 <= j < n implies repo[j] != ':' by {
            assert(repo.contains(repo[j]));
        }
        text::lemma_last_pos_none(repo, ':');
    }
    let path = repo + seq!['/'] + tag;
    assert forall|j: int| n < j < path.len() implies path[j] != ':' && path[j] != '/' by {
        assert(path[j] == tag[j - n - 1]);
        assert(tag.contains(tag[j - n - 1]));
    }
    text::lemma_last_pos(path, '/', n);
    text::lemma_last_pos_holds(path, ':');
}

/// A reference matches an image that is stored under it, or under a reference with
/// this tag, and no other.
pub proof fn references_match_names_and_tags(
    d: DescriptorModel,
    notes: Map<Seq<char>, Seq<char>>,
    reference: Seq<char>,
)
    requires
        d.annotations == Some(notes),
    ensures
        notes.contains_key("org.opencontainers.image.ref.name"@) ==> matches(d, reference) == (
        notes["org.opencontainers.image.ref.name"@] == reference || tag_of(
            notes["org.opencontainers.image.ref.name"@],
        ) == reference),
        notes.contains_key("org.opencontainers.image.ref.name"@) ==> is_named(d, reference) == (
        notes["org.opencontainers.image.ref.name"@] == reference),
        notes.contains_key("org.opencontainers.image.ref.name"@) ==> shown_name(d)
            == notes["org.opencontainers.image.ref.name"@],
        !notes.contains_key("org.opencontainers.image.ref.name"@) ==> !matches(d, reference)
            && !is_named(d, reference) && shown_name(d) == d.digest,
{
}

/// An image without annotations goes by its digest and matches nothing.
pub proof fn images_without_notes_go_by_their_digest(d: DescriptorModel, reference: Seq<char>)
    requires
        d.annotations is None,
    ensures
        !matches(d, reference),
        !is_named(d, reference),
        shown_name(d) == d.digest,
{
}

/// The image that a reference stands for is the first one stored under it, wherever
/// that stands; only where there is none is it the first one with that tag.
pub proof fn first_named_image_is_found(ms: Seq<DescriptorModel>, reference: Seq<char>, i: int)
    requires
        0 <= i < ms.len(),
    ensures
        is_named(ms[i], reference) && (forall|j: int|
            0 <= j < i ==> !is_named(#[trigger] ms[j], reference)) ==> lookup(ms, reference) == Some(
            ms[i],
        ),
        matches(ms[i], reference) && (forall|j: int|
            0 <= j < i ==> !matches(#[trigger] ms[j], reference)) && (forall|j: int|
            0 <= j < ms.len() ==> !is_named(#[trigger] ms[j], reference)) ==> lookup(ms, reference)
            == Some(ms[i]),
        (forall|j: int| 0 <= j < ms.len() ==> !matches(#[trigger] ms[j], reference)) ==> lookup(
            ms,
            reference,
        ) is None,
{
    lemma_named_pos(ms, reference);
    lemma_matching_pos(ms, reference);
}

/// Storing an image under a reference changes its name and nothing else of it.
pub proof fn stored_image_keeps_its_contents(
    d: DescriptorModel,
    reference: Seq<char>,
    key: Seq<char>,
)
    ensures
        renamed(d, reference).media_type == d.media_type,
        renamed(d, reference).digest == d.digest,
        renamed(d, reference).size == d.size,
        annotation(renamed(d, reference), "org.opencontainers.image.ref.name"@) == Some(reference),
        key != "org.opencontainers.image.ref.name"@ ==> annotation(renamed(d, reference), key)
            == annotation(d, key),
{
}

/// Storing an image under a reference touches no other entry of the index, and adds
/// one where the reference is new.
pub proof fn tag_touches_no_other_entry(
    ms: Seq<DescriptorModel>,
    d: DescriptorModel,
    reference: Seq<char>,
    j: int,
)
    requires
        0 <= j < ms.len(),
    ensures
        !is_named(ms[j], reference) ==> tagged(ms, d, reference)[j] == ms[j],
        (forall|i: int| 0 <= i < ms.len() ==> !is_named(#[trigger] ms[i], reference)) ==> tagged(
            ms,
            d,
            reference,
        ).len() == ms.len() + 1,
        is_named(ms[j], reference) ==> tagged(ms, d, reference).len() == ms.len(),
{
    lemma_named_pos(ms, reference);
}

/// A removal takes out every image that matches and leaves all others, in their
/// order.
pub proof fn removal_takes_out_what_matches(ms: Seq<DescriptorModel>, reference: Seq<char>)
    ensures
        removed(ms, reference) == ms.filter(|d: DescriptorModel| !matches(d, reference)),
    decreases ms.len(),
{
    reveal(Seq::filter);
    if ms.len() > 0 {
        removal_takes_out_what_matches(ms.drop_last(), reference);
    }
}

/// A blob lies below the store, under its algorithm and its digits, and so does the
/// blob that a digest of this algorithm names.
pub proof fn blobs_lie_below_the_store(root: Seq<char>, hex: Seq<char>)
    requires
        root.len() > 0,
        root.last() != '/',
        hex.len() > 0,
        hex[0] != '/',
    ensures
        sha256_path(root, hex) == root + "/blobs/sha256/"@ + hex,
        path_of_digest(root, "sha256:"@ + hex) == Some(root + "/blobs/sha256/"@ + hex),
        !hex.contains(':') ==> path_of_digest(root, hex) is None,
{
    reveal_strlit("blobs");
    reveal_strlit("sha256");
    reveal_strlit("sha256:");
    reveal_strlit("/blobs/sha256/");
    assert(sha256_path(root, hex) =~= root + "/blobs/sha256/"@ + hex);
    let digest = "sha256:"@ + hex;
    text::lemma_first_pos(digest, ':', 6);
    assert(digest.subrange(0, 6) =~= "sha256"@);
    assert(digest.subrange(7, digest.len() as int) =~= hex);
    if !hex.contains(':') {
        text::split_parts_make_the_whole(hex, ':', hex);
    }
}

/// A blob is known by the checksum of its contents and by their length.
pub proof fn blobs_are_known_by_their_contents(
    w: BlobWrite,
    root: Seq<char>,
    media_type: Seq<char>,
    data: Seq<u8>,
)
    requires
        keeps(w, root, media_type, data),
    ensures
        w.descriptor.media_type@ == media_type,
        w.descriptor.digest@ == "sha256:"@ + hash::hex_text(hash::sha256_of(data)),
        data.len() <= u64::MAX ==> w.descriptor.size == data.len(),
        w.descriptor.annotations is None,
        w.path@ == paths::below(
            paths::below(paths::below(root, "blobs"@), "sha256"@),
            hash::hex_text(hash::sha256_of(data)),
        ),
{
}

/// The layer of a file has the file's name as its title, and the checksum and the
/// length of its archive.
pub proof fn layers_are_titled(name: Seq<char>, data: Seq<u8>)
    ensures
        layer_of(name, data).media_type == "application/vnd.oci.image.layer.v1.tar"@,
        layer_of(name, data).digest == "sha256:"@ + hash::hex_text(hash::sha256_of(data)),
        data.len() <= u64::MAX ==> layer_of(name, data).size == data.len(),
        layer_of(name, data).annotations == Some(
            Map::<Seq<char>, Seq<char>>::empty().insert("org.opencontainers.image.title"@, name),
        ),
{
}

/// A new index is an OCI index without images.
pub proof fn new_index_is_empty()
    ensures
        empty_index().schema_version == 2,
        empty_index().media_type == "application/vnd.oci.image.index.v1+json"@,
        empty_index().manifests.len() == 0,
{
}

/// What a descriptor and an index say is what their fields hold.
pub proof fn descriptors_say_their_fields(d: Descriptor, i: Index)
    ensures
        d@.media_type == d.media_type@,
        d@.digest == d.digest@,
        d@.size == d.size,
        d.annotations matches Some(a) ==> d@.annotations == Some(a@),
        d.annotations is None ==> d@.annotations is None,
        i@.schema_version == i.schema_version,
        i@.media_type == i.media_type@,
        i@.manifests.len() == i.manifests@.len(),
        forall|j: int|
            0 <= j < i.manifests@.len() ==> #[trigger] i@.manifests[j] == i.manifests@[j]@,
{
}

/// Errors of the store name what they are about.
pub proof fn store_errors_name_their_cause(s: String)
    ensures
        StoreError::InvalidDigest(s).words() == "invalid digest: "@ + s@,
        StoreError::NotFound(s).words() == "image not found: "@ + s@,
        StoreError::NoFiles(s).words() == "no files found in "@ + s@,
        StoreError::BadName(s).words() == s@,
{
}

/// The annotations and the media types of the OCI image format.
pub proof fn images_go_by_these_names()
    ensures
        REF_NAME@ == "org.opencontainers.image.ref.name"@,
        TITLE@ == "org.opencontainers.image.title"@,
        INDEX_MEDIA_TYPE@ == "application/vnd.oci.image.index.v1+json"@,
        MANIFEST_MEDIA_TYPE@ == "application/vnd.oci.image.manifest.v1+json"@,
        CONFIG_MEDIA_TYPE@ == "application/vnd.oci.image.config.v1+json"@,
        LAYER_MEDIA_TYPE@ == "application/vnd.oci.image.layer.v1.tar"@,
        LAYOUT_MARKER@ == "{\"imageLayoutVersion\":\"1.0.0\"}"@,
{
}

/// A reference that begins with its only `:` names no tag.
pub proof fn colon_at_the_start_names_no_tag(rest: Seq<char>)
    requires
        !rest.contains(':'),
    ensures
        tag_colon(seq![':'] + rest) is None,
        tag_of(seq![':'] + rest) == "latest"@,
{
    let reference = seq![':'] + rest;
    assert forall|j: int| 0 < j < reference.len() implies reference[j] != ':' by {
        assert(reference[j] == rest[j - 1]);
        assert(rest.contains(rest[j - 1]));
    }
    text::lemma_last_pos(reference, ':', 0);
    text::lemma_last_pos_holds(reference, '/');
}

/// A digest leads to the blob below its own algorithm.
pub proof fn digests_lead_below_their_algorithm(
    root: Seq<char>,
    algorithm: Seq<char>,
    hex: Seq<char>,
)
    requires
        root.len() > 0,
        root.last() != '/',
        algorithm.len() > 0,
        algorithm[0] != '/',
        algorithm.last() != '/',
        !algorithm.contains(':'),
        hex.len() > 0,
        hex[0] != '/',
    ensures
        path_of_digest(root, algorithm.push(':') + hex) == Some(
            root + "/blobs/"@ + algorithm + "/"@ + hex,
        ),
{
    reveal_strlit("blobs");
    reveal_strlit("/blobs/");
    reveal_strlit("/");
    text::split_parts_make_the_whole(algorithm, ':', hex);
    let dir = paths::below(paths::below(root, "blobs"@), algorithm);
    assert(dir =~= root + "/blobs/"@ + algorithm);
    assert(paths::below(dir, hex) =~= root + "/blobs/"@ + algorithm + "/"@ + hex);
}

} // verus!
