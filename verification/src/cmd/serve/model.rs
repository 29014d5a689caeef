//! Finding the files of a model among the layers of its image.

use vstd::prelude::*;
use vstd::slice::slice_subrange;
use vstd::utf8;
use crate::archive;
use crate::paths;
use crate::storage::oci;
use crate::storage::oci::{Descriptor, DescriptorModel, Manifest, OciStore};
use crate::text;

verus! {

/// Annotation that gives the path of a layer's file.
pub const FILEPATH: &'static str = "org.cncf.model.filepath";

/// Media type of a layer that is a GGUF file itself.
pub const HF_GGUF_MEDIA_TYPE: &'static str = "application/vnd.docker.ai.gguf.v3";

/// Media type of a configuration file of a model.
pub const WEIGHT_CONFIG_MEDIA_TYPE: &'static str = "application/vnd.cncf.model.weight.config.v1.raw";

/// Media type of a weight file of a model.
pub const WEIGHT_MEDIA_TYPE: &'static str = "application/vnd.cncf.model.weight.v1.raw";

/// Name of a GGUF file that has no other.
pub const GGUF_NAME: &'static str = "model.gguf";

/// Why a model cannot be served.
#[derive(Debug)]
pub enum ModelError {
    /// The layer has this digest, without a `:`.
    MalformedDigest(String),
    /// The manifest has a digest without a `:`.
    MalformedManifestDigest,
    /// A layer has a digest without a `:`.
    MalformedLayerDigest,
    /// The archive of this model holds no GGUF file.
    NoGgufInTar(String),
    /// This entry of the archive cannot be read.
    UnreadableEntry(usize),
    /// This model has no layer that can be served.
    NoLayer(String),
    /// This model has files with other extensions only.
    Unservable { model_ref: String, extensions: Vec<String> },
    /// The configuration lies nowhere.
    NoParent,
    /// The file has a name that is no text.
    NotUnicode,
}

/// The extensions in quotes.
pub open spec fn all_quoted(s: Seq<Seq<char>>) -> Seq<Seq<char>> {
    s.map_values(|e: Seq<char>| text::quoted(e))
}

impl ModelError {
    /// The words of the error.
    pub open spec fn words(self) -> Seq<char> {
        match self {
            ModelError::MalformedDigest(d) => "malformed digest: "@ + d@,
            ModelError::MalformedManifestDigest => "malformed manifest digest"@,
            ModelError::MalformedLayerDigest => "malformed layer digest"@,
            ModelError::NoGgufInTar(m) => "no .gguf in tar layer of "@ + m@,
            ModelError::UnreadableEntry(i) => "unreadable archive entry "@ + text::decimal(i as nat),
            ModelError::NoLayer(m) => "no servable model layer found in "@ + m@,
            ModelError::Unservable { model_ref, extensions } => "no servable model layer in "@
                + model_ref@ + " — found {"@ + text::joined(
                all_quoted(text::texts(extensions@)),
                ", "@,
            )
                + "} files; llmman serve supports GGUF (llama-server) and safetensors (vllm)"@,
            ModelError::NoParent => "config.json has no parent directory"@,
            ModelError::NotUnicode => "non-UTF-8 model path"@,
        }
    }

    /// The error as a message.
    pub fn message(&self) -> (r: String)
        ensures
            r@ == self.words(),
    {
        match self {
            ModelError::MalformedDigest(d) => text::concat2("malformed digest: ", d.as_str()),
            ModelError::MalformedManifestDigest => "malformed manifest digest".to_string(),
            ModelError::MalformedLayerDigest => "malformed layer digest".to_string(),
            ModelError::NoGgufInTar(m) => text::concat2("no .gguf in tar layer of ", m.as_str()),
            ModelError::UnreadableEntry(i) => text::concat2(
                "unreadable archive entry ",
                text::decimal_of(*i as u64).as_str(),
            ),
            ModelError::NoLayer(m) => text::concat2(
                "no servable model layer found in ",
                m.as_str(),
            ),
            ModelError::Unservable { model_ref, extensions } => {
                let mut list: Vec<String> = Vec::new();
                let mut i: usize = 0;
                while i < extensions.len()
                    invariant
                        i <= extensions.len(),
                        text::texts(list@) == all_quoted(text::texts(extensions@)).take(i as int),
                    decreases extensions.len() - i,
                {
                    let ghost all = all_quoted(text::texts(extensions@));
                    let ghost before = text::texts(list@);
                    let q: String = text::quote(extensions[i].as_str());
                    assert(q@ == all[i as int]);
                    list.push(q);
                    assert(text::texts(list@) =~= before.push(q@));
                    assert(all.take(i + 1) =~= all.take(i as int).push(all[i as int]));
                    i += 1;
                }
                assert(text::texts(list@) =~= all_quoted(text::texts(extensions@)));
                let mut r: String = text::concat3(
                    "no servable model layer in ",
                    model_ref.as_str(),
                    " — found {",
                );
                r.append(text::join(&list, ", ").as_str());
                r.append(
                    "} files; llmman serve supports GGUF (llama-server) and safetensors (vllm)",
                );
                r
            },
            ModelError::NoParent => "config.json has no parent directory".to_string(),
            ModelError::NotUnicode => "non-UTF-8 model path".to_string(),
        }
    }
}

// ---------------------------------------------------------------------------
// Kinds of layers
// ---------------------------------------------------------------------------

/// The path of a layer's file.
pub open spec fn path_of(l: DescriptorModel) -> Option<Seq<char>> {
    match oci::annotation(l, FILEPATH@) {
        Some(p) => Some(p),
        None => oci::annotation(l, oci::TITLE@),
    }
}

/// The layer's file has a path with this end, in any case.
pub open spec fn path_ends(l: DescriptorModel, end: Seq<char>) -> bool {
    match path_of(l) {
        Some(p) => text::without_suffix(text::lowered(p), end) is Some,
        None => false,
    }
}

/// The layer holds a GGUF file.
pub open spec fn is_gguf(l: DescriptorModel) -> bool {
    l.media_type == HF_GGUF_MEDIA_TYPE@ || path_ends(l, ".gguf"@)
}

/// The layer holds a safetensors file.
pub open spec fn is_safetensors(l: DescriptorModel) -> bool {
    path_ends(l, ".safetensors"@)
}

/// The path of a layer's file: an annotation of its own, or else the title.
pub fn layer_filepath(l: &Descriptor) -> (r: Option<&str>)
    ensures
        text::opt_str(r) == path_of(l@),
{
    match l.annotation(FILEPATH) {
        Some(p) => Some(p),
        None => l.annotation(oci::TITLE),
    }
}

fn layer_path_ends(l: &Descriptor, end: &str) -> (r: bool)
    ensures
        r == path_ends(l@, end@),
{
    match layer_filepath(l) {
        Some(p) => text::ends_with(text::to_lowercase(p).as_str(), end),
        None => false,
    }
}

/// Whether a layer holds a GGUF file.
pub fn is_gguf_layer(l: &Descriptor) -> (r: bool)
    ensures
        r == is_gguf(l@),
{
    text::same(l.media_type.as_str(), HF_GGUF_MEDIA_TYPE) || layer_path_ends(l, ".gguf")
}

/// Whether a layer holds a safetensors file.
pub fn is_safetensors_layer(l: &Descriptor) -> (r: bool)
    ensures
        r == is_safetensors(l@),
{
    layer_path_ends(l, ".safetensors")
}

// ---------------------------------------------------------------------------
// Choice of a layer
// ---------------------------------------------------------------------------

/// Position of the first GGUF layer.
pub open spec fn gguf_pos(ls: Seq<DescriptorModel>) -> Option<int>
    decreases ls.len(),
{
    if ls.len() == 0 {
        None
    } else {
        match gguf_pos(ls.drop_last()) {
            Some(i) => Some(i),
            None => if is_gguf(ls.last()) {
                Some(ls.len() - 1)
            } else {
                None
            },
        }
    }
}

/// Some layer holds a safetensors file.
pub open spec fn has_safetensors(ls: Seq<DescriptorModel>) -> bool {
    exists|i: int| 0 <= i < ls.len() && is_safetensors(#[trigger] ls[i])
}

/// The extension of a layer's file, in lower case.
pub open spec fn extension_of(l: DescriptorModel) -> Option<Seq<char>> {
    match path_of(l) {
        Some(p) => match paths::final_suffix(p) {
            Some(e) => Some(text::lowered(e)),
            None => None,
        },
        None => None,
    }
}

/// The extensions of the layers' files, each once, in the order in which they
/// first come up.
pub open spec fn extensions_of(ls: Seq<DescriptorModel>) -> Seq<Seq<char>>
    decreases ls.len(),
{
    if ls.len() == 0 {
        Seq::<Seq<char>>::empty()
    } else {
        let before = extensions_of(ls.drop_last());
        match extension_of(ls.last()) {
            Some(e) => if before.contains(e) {
                before
            } else {
                before.push(e)
            },
            None => before,
        }
    }
}

/// A layer that holds a GGUF file.
#[derive(Debug)]
pub struct GgufLayer {
    /// Position among the layers of the manifest.
    pub index: usize,
    /// Path of the file.
    pub title: String,
    /// Where the file lies as it is, if the layer is the file and that exists.
    pub direct: Option<String>,
    /// Directory into which the file is extracted.
    pub dir: String,
}

/// What a model is made of.
#[derive(Debug)]
pub enum ModelKind {
    /// A GGUF file, for llama-server.
    Gguf(GgufLayer),
    /// A directory of safetensors files, for vllm.
    SafeTensors,
}

/// `g` is the layer `l` with the digits `hex`.
pub open spec fn describes(
    g: GgufLayer,
    l: DescriptorModel,
    hex: Seq<char>,
    root: Seq<char>,
    cache: Seq<char>,
) -> bool {
    &&& g.title@ == (match path_of(l) {
        Some(p) => p,
        None => GGUF_NAME@,
    })
    &&& text::opt_text(g.direct) == (if l.media_type == HF_GGUF_MEDIA_TYPE@ {
        Some(oci::sha256_path(root, hex))
    } else {
        None
    })
    &&& g.dir@ == paths::below(cache, hex)
}

/// What becomes of a model with the given layers.
pub open spec fn resolves(
    r: Result<ModelKind, ModelError>,
    ls: Seq<DescriptorModel>,
    root: Seq<char>,
    cache: Seq<char>,
    model_ref: Seq<char>,
) -> bool {
    match gguf_pos(ls) {
        Some(i) => match text::split_at_first(ls[i].digest, ':') {
            Some(p) => r matches Ok(ModelKind::Gguf(g)) && g.index == i && describes(
                g,
                ls[i],
                p.1,
                root,
                cache,
            ),
            None => r matches Err(ModelError::MalformedDigest(d)) && d@ == ls[i].digest,
        },
        None => if has_safetensors(ls) {
            r matches Ok(ModelKind::SafeTensors)
        } else if extensions_of(ls).len() == 0 {
            r matches Err(ModelError::NoLayer(m)) && m@ == model_ref
        } else {
            r matches Err(ModelError::Unservable { model_ref: m, extensions }) && m@ == model_ref
                && text::texts(extensions@) == extensions_of(ls)
        },
    }
}

proof fn lemma_gguf_pos(ls: Seq<DescriptorModel>, i: int)
    requires
        0 <= i < ls.len(),
        is_gguf(ls[i]),
        forall|j: int| 0 <= j < i ==> !is_gguf(#[trigger] ls[j]),
    ensures
        gguf_pos(ls) == Some(i),
    decreases ls.len(),
{
    if i < ls.len() - 1 {
        lemma_gguf_pos(ls.drop_last(), i);
    } else {
        lemma_gguf_pos_none(ls.drop_last());
    }
}

proof fn lemma_gguf_pos_none(ls: Seq<DescriptorModel>)
    requires
        forall|j: int| 0 <= j < ls.len() ==> !is_gguf(#[trigger] ls[j]),
    ensures
        gguf_pos(ls) is None,
    decreases ls.len(),
{
    if ls.len() > 0 {
        assert forall|j: int| 0 <= j < ls.drop_last().len() implies !is_gguf(
            #[trigger] ls.drop_last()[j],
        ) by {
            assert(ls.drop_last()[j] == ls[j]);
        }
        lemma_gguf_pos_none(ls.drop_last());
    }
}

fn find_gguf(layers: &Vec<Descriptor>) -> (r: Option<usize>)
    ensures
        match r {
            Some(i) => i < layers@.len() && gguf_pos(oci::models(layers@)) == Some(i as int),
            None => gguf_pos(oci::models(layers@)) is None,
        },
{
    let ghost ls = oci::models(layers@);
    let mut i: usize = 0;
    while i < layers.len()
        invariant
            i <= layers.len(),
            ls == oci::models(layers@),
            forall|j: int| 0 <= j < i ==> !is_gguf(#[trigger] ls[j]),
        decreases layers.len() - i,
    {
        if is_gguf_layer(&layers[i]) {
            proof {
                lemma_gguf_pos(ls, i as int);
            }
            return Some(i);
        }
        assert(ls[i as int] == layers@[i as int]@);
        i += 1;
    }
    proof {
        lemma_gguf_pos_none(ls);
    }
    None
}

fn any_safetensors(layers: &Vec<Descriptor>) -> (r: bool)
    ensures
        r == has_safetensors(oci::models(layers@)),
{
    let ghost ls = oci::models(layers@);
    let mut i: usize = 0;
    while i < layers.len()
        invariant
            i <= layers.len(),
            ls == oci::models(layers@),
            forall|j: int| 0 <= j < i ==> !is_safetensors(#[trigger] ls[j]),
        decreases layers.len() - i,
    {
        assert(ls[i as int] == layers@[i as int]@);
        if is_safetensors_layer(&layers[i]) {
            return true;
        }
        i += 1;
    }
    false
}

fn has_text(v: &Vec<String>, s: &str) -> (r: bool)
    ensures
        r == text::texts(v@).contains(s@),
{
    let mut i: usize = 0;
    while i < v.len()
        invariant
            i <= v.len(),
            forall|j: int| 0 <= j < i ==> #[trigger] text::texts(v@)[j] != s@,
        decreases v.len() - i,
    {
        assert(text::texts(v@)[i as int] == v@[i as int]@);
        if text::same(v[i].as_str(), s) {
            return true;
        }
        i += 1;
    }
    false
}

fn list_extensions(layers: &Vec<Descriptor>) -> (r: Vec<String>)
    ensures
        text::texts(r@) == extensions_of(oci::models(layers@)),
{
    let ghost ls = oci::models(layers@);
    let mut r: Vec<String> = Vec::new();
    let mut i: usize = 0;
    assert(text::texts(r@) =~= extensions_of(ls.take(0)));
    while i < layers.len()
        invariant
            i <= layers.len(),
            ls == oci::models(layers@),
            text::texts(r@) == extensions_of(ls.take(i as int)),
        decreases layers.len() - i,
    {
        let ghost before = ls.take(i as int);
        assert(ls.take(i + 1).drop_last() =~= before);
        assert(ls.take(i + 1).last() == layers@[i as int]@);
        match layer_filepath(&layers[i]) {
            Some(p) => match paths::extension(p) {
                Some(e) => {
                    let low: String = text::to_lowercase(e);
                    if !has_text(&r, low.as_str()) {
                        let ghost list = text::texts(r@);
                        r.push(low);
                        assert(text::texts(r@) =~= list.push(low@));
                    }
                },
                None => {},
            },
            None => {},
        }
        i += 1;
    }
    assert(ls.take(layers@.len() as int) =~= ls);
    r
}

/// What the model `model_ref` is made of: its first GGUF layer, or else its
/// safetensors layers.
pub fn resolve_model(store: &OciStore, manifest: &Manifest, cache: &str, model_ref: &str) -> (r:
    Result<ModelKind, ModelError>)
    ensures
        resolves(r, oci::models(manifest.layers@), store@.root, cache@, model_ref@),
{
    match find_gguf(&manifest.layers) {
        Some(i) => {
            let layer: &Descriptor = &manifest.layers[i];
            assert(oci::models(manifest.layers@)[i as int] == layer@);
            let hex: &str = match text::split_once(layer.digest.as_str(), ':') {
                Some(p) => p.1,
                None => {
                    return Err(ModelError::MalformedDigest(layer.digest.clone()));
                },
            };
            let title: String = match layer_filepath(layer) {
                Some(p) => p.to_string(),
                None => GGUF_NAME.to_string(),
            };
            let direct: Option<String> = if text::same(
                layer.media_type.as_str(),
                HF_GGUF_MEDIA_TYPE,
            ) {
                Some(paths::join(store.blob_dir().as_str(), hex))
            } else {
                None
            };
            Ok(
                ModelKind::Gguf(
                    GgufLayer { index: i, title, direct, dir: paths::join(cache, hex) },
                ),
            )
        },
        None => {
            if any_safetensors(&manifest.layers) {
                return Ok(ModelKind::SafeTensors);
            }
            let extensions: Vec<String> = list_extensions(&manifest.layers);
            if extensions.len() == 0 {
                Err(ModelError::NoLayer(model_ref.to_string()))
            } else {
                Err(ModelError::Unservable { model_ref: model_ref.to_string(), extensions })
            }
        },
    }
}

// ---------------------------------------------------------------------------
// The GGUF file of a layer
// ---------------------------------------------------------------------------

/// The path has the extension `gguf`.
pub open spec fn ends_in_gguf(path: Seq<char>) -> bool {
    paths::final_suffix(path) == Some("gguf"@)
}

/// Position of the first file name that has the extension `gguf`.
pub open spec fn first_gguf(names: Seq<Seq<char>>) -> Option<int>
    decreases names.len(),
{
    if names.len() == 0 {
        None
    } else if ends_in_gguf(names[0]) {
        Some(0)
    } else {
        match first_gguf(names.drop_first()) {
            Some(i) => Some(i + 1),
            None => None,
        }
    }
}

/// Where the GGUF file of a layer lies, if it need not be extracted.
#[derive(Debug)]
pub enum GgufPlace {
    /// The blob itself, at this path.
    Blob(String),
    /// A file that was extracted before, by its position in the list.
    Extracted(usize),
}

/// The blob itself is used where it exists, or else the first file that was
/// extracted before.
pub open spec fn is_place(
    r: Option<GgufPlace>,
    layer: GgufLayer,
    direct_there: bool,
    extracted: Seq<Seq<char>>,
) -> bool {
    match layer.direct {
        Some(path) if direct_there => r matches Some(GgufPlace::Blob(p)) && p@ == path@,
        _ => match first_gguf(extracted) {
            Some(k) => r matches Some(GgufPlace::Extracted(i)) && i == k && i < extracted.len(),
            None => r is None,
        },
    }
}

fn cached_gguf(names: &Vec<String>) -> (r: Option<usize>)
    ensures
        match r {
            Some(i) => i < names@.len() && first_gguf(text::texts(names@)) == Some(i as int),
            None => first_gguf(text::texts(names@)) is None,
        },
{
    let ghost all = text::texts(names@);
    assert(all.skip(0) =~= all);
    let mut i: usize = 0;
    while i < names.len()
        invariant
            i <= names.len(),
            all == text::texts(names@),
            first_gguf(all) == (match first_gguf(all.skip(i as int)) {
                Some(k) => Some(k + i),
                None => None,
            }),
        decreases names.len() - i,
    {
        assert(all.skip(i as int)[0] == names@[i as int]@);
        assert(all.skip(i as int).drop_first() =~= all.skip(i + 1));
        if has_gguf_extension(names[i].as_str()) {
            return Some(i);
        }
        i += 1;
    }
    None
}

/// Where the GGUF file of a layer lies, if it need not be extracted.
/// `direct_there` tells whether the blob exists that is the file itself, and
/// `extracted` lists the files in the directory for extracted ones.
pub fn locate_gguf(layer: &GgufLayer, direct_there: bool, extracted: &Vec<String>) -> (r: Option<
    GgufPlace,
>)
    ensures
        is_place(r, *layer, direct_there, text::texts(extracted@)),
{
    match &layer.direct {
        Some(path) => {
            if direct_there {
                return Some(GgufPlace::Blob(path.clone()));
            }
        },
        None => {},
    }
    match cached_gguf(extracted) {
        Some(i) => Some(GgufPlace::Extracted(i)),
        None => None,
    }
}

fn has_gguf_extension(path: &str) -> (r: bool)
    ensures
        r == ends_in_gguf(path@),
{
    match paths::extension(path) {
        Some(e) => text::same(e, "gguf"),
        None => false,
    }
}

/// The bytes are those of a GGUF file: they start with `GGUF`.
pub open spec fn is_raw(blob: Seq<u8>) -> bool {
    seq![71u8, 71u8, 85u8, 70u8].is_prefix_of(blob)
}

fn starts_with_magic(blob: &[u8]) -> (r: bool)
    ensures
        r == is_raw(blob@),
{
    blob.len() >= 4 && blob[0] == 71 && blob[1] == 71 && blob[2] == 85 && blob[3] == 70
}

/// A file name in bytes with the extension `gguf`.
pub open spec fn is_gguf_name(name: Seq<u8>) -> bool {
    name.len() > 5 && name.subrange(name.len() - 5, name.len() as int) == seq![
        46u8,
        103u8,
        103u8,
        117u8,
        102u8,
    ]
}

/// A path in bytes with the extension `gguf`.
pub open spec fn is_gguf_path(path: Seq<u8>) -> bool {
    match paths::name_bytes(path) {
        Some(name) => is_gguf_name(name),
        None => false,
    }
}

/// The search for a GGUF file stops at this entry: it is one, or it cannot be
/// read.
pub open spec fn stops(entry: Option<Seq<u8>>) -> bool {
    match entry {
        Some(path) => is_gguf_path(path),
        None => true,
    }
}

/// Position of the first entry at which the search stops.
pub open spec fn stop_pos(entries: Seq<Option<Seq<u8>>>) -> Option<int>
    decreases entries.len(),
{
    if entries.len() == 0 {
        None
    } else if stops(entries[0]) {
        Some(0)
    } else {
        match stop_pos(entries.drop_first()) {
            Some(i) => Some(i + 1),
            None => None,
        }
    }
}

fn has_gguf_name(path: &[u8]) -> (r: bool)
    ensures
        r == is_gguf_path(path@),
{
    match paths::file_name_bytes(path) {
        Some(name) => {
            let n: usize = name.len();
            if n <= 5 {
                return false;
            }
            let end: [u8; 5] = [46, 103, 103, 117, 102];
            assert(end@ =~= seq![46u8, 103u8, 103u8, 117u8, 102u8]);
            text::same_bytes(slice_subrange(name, n - 5, n), end.as_slice())
        },
        None => false,
    }
}

/// The name under which a file is kept.
pub open spec fn kept_name(path: Seq<char>) -> Seq<char> {
    match paths::final_name(path) {
        Some(name) => name,
        None => GGUF_NAME@,
    }
}

/// Where the GGUF file of a layer is to be had, and where to put it.
#[derive(Debug)]
pub enum GgufSource {
    /// The blob is the file.
    Whole { dest: String },
    /// The file is this entry of the archive.
    Entry { index: usize, dest: String },
}

/// What the entry at `i` with the given path leads to.
pub open spec fn yields_entry(
    r: Result<GgufSource, ModelError>,
    i: int,
    path: Seq<u8>,
    dir: Seq<char>,
) -> bool {
    match paths::name_bytes(path) {
        Some(name) if utf8::valid_utf8(name) => {
            r matches Ok(GgufSource::Entry { index, dest }) && index == i && dest@ == paths::below(
                dir,
                utf8::decode_utf8(name),
            )
        },
        _ => r matches Err(e) && e == ModelError::NotUnicode,
    }
}

/// What the blob of a layer leads to: the file itself, or the first GGUF file in
/// the archive.  What stands behind the listable part of an archive cannot be
/// read.
pub open spec fn yields(
    r: Result<GgufSource, ModelError>,
    blob: Seq<u8>,
    title: Seq<char>,
    dir: Seq<char>,
    model_ref: Seq<char>,
) -> bool {
    let part = archive::listable_part(blob);
    let entries = archive::entry_paths(part);
    if is_raw(blob) {
        r matches Ok(GgufSource::Whole { dest }) && dest@ == paths::below(dir, kept_name(title))
    } else {
        match stop_pos(entries) {
            Some(i) => match entries[i] {
                Some(path) => yields_entry(r, i, path, dir),
                None => r matches Err(ModelError::UnreadableEntry(k)) && k == i,
            },
            None => if part.len() < blob.len() {
                r matches Err(ModelError::UnreadableEntry(k)) && k == entries.len()
            } else {
                r matches Err(ModelError::NoGgufInTar(m)) && m@ == model_ref
            },
        }
    }
}

/// Position of the entry at which the search for a GGUF file stops, among the
/// entries as they are listed.
pub fn find_entry(entries: &Vec<Option<Vec<u8>>>) -> (r: Option<usize>)
    ensures
        match r {
            Some(i) => i < entries@.len() && stop_pos(archive::opt_bytes(entries@)) == Some(
                i as int,
            ),
            None => stop_pos(archive::opt_bytes(entries@)) is None,
        },
{
    let ghost all = archive::opt_bytes(entries@);
    assert(all.skip(0) =~= all);
    let mut i: usize = 0;
    while i < entries.len()
        invariant
            i <= entries.len(),
            all == archive::opt_bytes(entries@),
            stop_pos(all) == (match stop_pos(all.skip(i as int)) {
                Some(k) => Some(k + i),
                None => None,
            }),
        decreases entries.len() - i,
    {
        let ghost rest = all.skip(i as int);
        assert(rest.drop_first() =~= all.skip(i + 1));
        assert(rest[0] == all[i as int]);
        let stop: bool = match &entries[i] {
            Some(path) => has_gguf_name(path.as_slice()),
            None => true,
        };
        if stop {
            return Some(i);
        }
        i += 1;
    }
    None
}

fn entry_source(i: usize, path: &Vec<u8>, dir: &str) -> (r: Result<GgufSource, ModelError>)
    ensures
        yields_entry(r, i as int, path@, dir@),
{
    match paths::file_name_bytes(path.as_slice()) {
        Some(name) => match text::utf8_text(name) {
            Some(n) => Ok(GgufSource::Entry { index: i, dest: paths::join(dir, n.as_str()) }),
            None => Err(ModelError::NotUnicode),
        },
        None => Err(ModelError::NotUnicode),
    }
}

/// Where the GGUF file in the blob of a layer is to be had.
pub fn gguf_source(blob: &[u8], layer: &GgufLayer, model_ref: &str) -> (r: Result<
    GgufSource,
    ModelError,
>)
    ensures
        yields(r, blob@, layer.title@, layer.dir@, model_ref@),
{
    if starts_with_magic(blob) {
        let name: &str = match paths::file_name(layer.title.as_str()) {
            Some(n) => n,
            None => GGUF_NAME,
        };
        return Ok(GgufSource::Whole { dest: paths::join(layer.dir.as_str(), name) });
    }
    proof {
        archive::lemma_listable_part(blob@);
    }
    let len: usize = archive::listable_len(blob);
    let entries: Vec<Option<Vec<u8>>> = archive::list_entries(slice_subrange(blob, 0, len));
    assert(archive::opt_bytes(entries@).len() == entries@.len());
    match find_entry(&entries) {
        Some(i) => match &entries[i] {
            Some(path) => entry_source(i, path, layer.dir.as_str()),
            None => Err(ModelError::UnreadableEntry(i)),
        },
        None => if len < blob.len() {
            Err(ModelError::UnreadableEntry(entries.len()))
        } else {
            Err(ModelError::NoGgufInTar(model_ref.to_string()))
        },
    }
}

// ---------------------------------------------------------------------------
// A directory of safetensors files
// ---------------------------------------------------------------------------

/// A file to be copied out of the store, unless it is there already.
#[derive(Debug)]
pub struct LayerCopy {
    /// Path of the file.
    pub rel_path: String,
    /// Where the file goes.
    pub dest: String,
    /// Where the blob lies, for a layer with a well-formed digest.
    pub source: Option<String>,
}

/// What a copy says.
pub struct CopyModel {
    pub rel_path: Seq<char>,
    pub dest: Seq<char>,
    pub source: Option<Seq<char>>,
}

impl View for LayerCopy {
    type V = CopyModel;

    open spec fn view(&self) -> CopyModel {
        CopyModel {
            rel_path: self.rel_path@,
            dest: self.dest@,
            source: text::opt_text(self.source),
        }
    }
}

impl LayerCopy {
    /// The blob to copy from, unless the file is there already.  A layer with a
    /// malformed digest has no blob.
    pub fn needed(&self, there: bool) -> (r: Result<Option<&str>, ModelError>)
        ensures
            if there {
                r matches Ok(None)
            } else {
                match self@.source {
                    Some(path) => r matches Ok(Some(p)) && p@ == path,
                    None => r matches Err(e) && e == ModelError::MalformedLayerDigest,
                }
            },
    {
        if there {
            return Ok(None);
        }
        match &self.source {
            Some(p) => Ok(Some(p.as_str())),
            None => Err(ModelError::MalformedLayerDigest),
        }
    }
}

/// The files of a model, and the directory that it is served from.
#[derive(Debug)]
pub struct ModelFiles {
    pub copies: Vec<LayerCopy>,
    pub dir: String,
}

/// What a list of copies says.
pub open spec fn copy_models(v: Seq<LayerCopy>) -> Seq<CopyModel> {
    v.map_values(|c: LayerCopy| c@)
}

/// The layer is a weight file or a configuration file.
pub open spec fn is_weight(l: DescriptorModel) -> bool {
    l.media_type == WEIGHT_CONFIG_MEDIA_TYPE@ || l.media_type == WEIGHT_MEDIA_TYPE@
}

/// The copy of a layer's file at `path`.
pub open spec fn copy_of(
    l: DescriptorModel,
    path: Seq<char>,
    root: Seq<char>,
    dir: Seq<char>,
) -> CopyModel {
    CopyModel {
        rel_path: path,
        dest: paths::below(dir, path),
        source: match text::split_at_first(l.digest, ':') {
            Some(p) => Some(oci::sha256_path(root, p.1)),
            None => None,
        },
    }
}

/// The copies of the weight and configuration files among the layers.
pub open spec fn copies_of(ls: Seq<DescriptorModel>, root: Seq<char>, dir: Seq<char>) -> Seq<
    CopyModel,
>
    decreases ls.len(),
{
    if ls.len() == 0 {
        Seq::<CopyModel>::empty()
    } else {
        let before = copies_of(ls.drop_last(), root, dir);
        match path_of(ls.last()) {
            Some(path) => if is_weight(ls.last()) {
                before.push(copy_of(ls.last(), path, root, dir))
            } else {
                before
            },
            None => before,
        }
    }
}

/// The layer's file is a `config.json`.
pub open spec fn is_config(l: DescriptorModel) -> bool {
    match path_of(l) {
        Some(p) => paths::final_name(p) == Some("config.json"@),
        None => false,
    }
}

/// The directory of the model: that of the first `config.json`, or else the
/// whole directory.
pub open spec fn model_dir(ls: Seq<DescriptorModel>, dir: Seq<char>) -> Option<Seq<char>>
    decreases ls.len(),
{
    if ls.len() == 0 {
        Some(dir)
    } else if is_config(ls[0]) {
        paths::above(paths::below(dir, path_of(ls[0])->0))
    } else {
        model_dir(ls.drop_first(), dir)
    }
}

fn list_copies(layers: &Vec<Descriptor>, store: &OciStore, dir: &str) -> (r: Vec<LayerCopy>)
    ensures
        copy_models(r@) == copies_of(oci::models(layers@), store@.root, dir@),
{
    let ghost ls = oci::models(layers@);
    let ghost root = store@.root;
    let mut r: Vec<LayerCopy> = Vec::new();
    let mut i: usize = 0;
    assert(copy_models(r@) =~= copies_of(ls.take(0), root, dir@));
    while i < layers.len()
        invariant
            i <= layers.len(),
            ls == oci::models(layers@),
            root == store@.root,
            copy_models(r@) == copies_of(ls.take(i as int), root, dir@),
        decreases layers.len() - i,
    {
        let layer: &Descriptor = &layers[i];
        assert(ls.take(i + 1).drop_last() =~= ls.take(i as int));
        assert(ls.take(i + 1).last() == layer@);
        let wanted: bool = text::same(layer.media_type.as_str(), WEIGHT_CONFIG_MEDIA_TYPE)
            || text::same(layer.media_type.as_str(), WEIGHT_MEDIA_TYPE);
        match layer_filepath(layer) {
            Some(path) => {
                if wanted {
                    let source: Option<String> = match text::split_once(
                        layer.digest.as_str(),
                        ':',
                    ) {
                        Some(p) => Some(paths::join(store.blob_dir().as_str(), p.1)),
                        None => None,
                    };
                    let copy = LayerCopy {
                        rel_path: path.to_string(),
                        dest: paths::join(dir, path),
                        source,
                    };
                    let ghost before = copy_models(r@);
                    assert(copy@ == copy_of(layer@, path@, root, dir@));
                    r.push(copy);
                    assert(copy_models(r@) =~= before.push(copy@));
                }
            },
            None => {},
        }
        i += 1;
    }
    assert(ls.take(layers@.len() as int) =~= ls);
    r
}

fn find_model_dir(layers: &Vec<Descriptor>, dir: &str) -> (r: Option<String>)
    ensures
        text::opt_text(r) == model_dir(oci::models(layers@), dir@),
{
    let ghost ls = oci::models(layers@);
    let mut i: usize = 0;
    assert(ls.skip(0) =~= ls);
    while i < layers.len()
        invariant
            i <= layers.len(),
            ls == oci::models(layers@),
            model_dir(ls, dir@) == model_dir(ls.skip(i as int), dir@),
        decreases layers.len() - i,
    {
        assert(ls.skip(i as int)[0] == layers@[i as int]@);
        assert(ls.skip(i as int).drop_first() =~= ls.skip(i + 1));
        match layer_filepath(&layers[i]) {
            Some(path) => {
                let is_config: bool = match paths::file_name(path) {
                    Some(name) => text::same(name, "config.json"),
                    None => false,
                };
                if is_config {
                    let config: String = paths::join(dir, path);
                    return match paths::parent(config.as_str()) {
                        Some(p) => Some(p.to_string()),
                        None => None,
                    };
                }
            },
            None => {},
        }
        i += 1;
    }
    Some(dir.to_string())
}

/// The files of a model made of safetensors files, for the digest of its
/// manifest: those of the weight and configuration layers go into a directory
/// of its own, and the model is served from where its `config.json` lies.
pub fn extract_safetensors_dir(
    store: &OciStore,
    cache: &str,
    manifest_digest: &str,
    manifest: &Manifest,
) -> (r: Result<ModelFiles, ModelError>)
    ensures
        match text::split_at_first(manifest_digest@, ':') {
            Some(p) => {
                let ls = oci::models(manifest.layers@);
                let dir = paths::below(cache@, p.1);
                match model_dir(ls, dir) {
                    Some(d) => r matches Ok(f) && f.dir@ == d && copy_models(f.copies@)
                        == copies_of(ls, store@.root, dir),
                    None => r matches Err(e) && e == ModelError::NoParent,
                }
            },
            None => r matches Err(e) && e == ModelError::MalformedManifestDigest,
        },
{
    let hex: &str = match text::split_once(manifest_digest, ':') {
        Some(p) => p.1,
        None => {
            return Err(ModelError::MalformedManifestDigest);
        },
    };
    let dir: String = paths::join(cache, hex);
    let copies: Vec<LayerCopy> = list_copies(&manifest.layers, store, dir.as_str());
    match find_model_dir(&manifest.layers, dir.as_str()) {
        Some(d) => Ok(ModelFiles { copies, dir: d }),
        None => Err(ModelError::NoParent),
    }
}

// ---------------------------------------------------------------------------
// Laws
// ---------------------------------------------------------------------------

/// What stands between two `/`, or between one and an end, in UTF-8 is UTF-8.
proof fn lemma_component_is_text(bytes: Seq<u8>, start: int, end: int)
    requires
        utf8::valid_utf8(bytes),
        0 <= start <= end <= bytes.len(),
        start == 0 || bytes[start - 1] == 47,
        end == bytes.len() || bytes[end] == 47,
    ensures
        utf8::valid_utf8(bytes.subrange(start, end)),
{
    let head = bytes.subrange(0, end);
    if end < bytes.len() {
        utf8::is_char_boundary_iff_not_is_continuation_byte(bytes, end);
        utf8::valid_utf8_split(bytes, end);
    } else {
        assert(head =~= bytes);
    }
    if start > 0 {
        let at = start - 1;
        assert(head[at] == 47);
        utf8::is_char_boundary_iff_not_is_continuation_byte(head, at);
        utf8::valid_utf8_split(head, at);
        let tail = head.subrange(at, head.len() as int);
        assert(tail[0] == 47);
        assert(tail.subrange(1, tail.len() as int) =~= bytes.subrange(start, end));
    } else {
        assert(bytes.subrange(start, end) =~= head);
    }
}

proof fn lemma_name_is_text(bytes: Seq<u8>, end: int)
    requires
        utf8::valid_utf8(bytes),
        0 <= end <= bytes.len(),
        end == bytes.len() || bytes[end] == 47,
    ensures
        match paths::name_range(bytes, end) {
            Some(r) => 0 <= r.0 <= r.1 <= bytes.len() && utf8::valid_utf8(
                bytes.subrange(r.0, r.1),
            ),
            None => true,
        },
    decreases end,
{
    paths::lemma_component_start(bytes, end);
    let start = paths::component_start(bytes, end);
    let part = bytes.subrange(start, end);
    if end > 0 {
        if part.len() == 0 || part == seq![46u8] {
            if start > 0 {
                lemma_name_is_text(bytes, start - 1);
            }
        } else {
            lemma_component_is_text(bytes, start, end);
        }
    }
}

/// A GGUF file that was packaged under a plain name is found again: its layer
/// is taken for a GGUF layer, and the file is the first entry of its archive.
/// Names that start with `GGUF` are the exception: their archives look like
/// GGUF files.
pub proof fn packaged_gguf_is_found(
    name: Seq<char>,
    data: Seq<u8>,
    r: Result<GgufSource, ModelError>,
    dir: Seq<char>,
    model_ref: Seq<char>,
)
    requires
        is_gguf_path(utf8::encode_utf8(name)),
        text::without_suffix(text::lowered(name), ".gguf"@) is Some,
        !is_raw(utf8::encode_utf8(name)),
        archive::is_packed(data, utf8::encode_utf8(name)),
        yields(r, data, name, dir, model_ref),
    ensures
        is_gguf(oci::layer_of(name, data)),
        r matches Ok(GgufSource::Entry { index, dest }) && index == 0 && dest@ == paths::below(
            dir,
            utf8::decode_utf8(paths::name_bytes(utf8::encode_utf8(name))->0),
        ),
{
    reveal_strlit("org.cncf.model.filepath");
    reveal_strlit("org.opencontainers.image.title");
    assert(FILEPATH@.len() != oci::TITLE@.len());
    let l = oci::layer_of(name, data);
    assert(path_of(l) == Some(name));
    let bytes = utf8::encode_utf8(name);
    utf8::encode_utf8_valid_utf8(name);
    lemma_name_is_text(bytes, bytes.len() as int);
    assert(bytes.len() > 5);
    let magic = seq![71u8, 71u8, 85u8, 70u8];
    if is_raw(data) {
        assert(bytes.subrange(0, 4) =~= magic) by {
            assert forall|i: int| 0 <= i < 4 implies bytes[i] == magic[i] by {
                assert(bytes[i] == data[i]);
                assert(magic[i] == data[i]);
            }
        }
        assert(magic.is_prefix_of(bytes));
    }
    archive::lemma_listable_part(data);
    archive::lemma_first_header(data);
    let part = data.subrange(0, archive::first_overflow(data, 0));
    assert(archive::entry_paths(part)[0] == Some(bytes));
}

/// The path of a layer's file is the annotation `org.cncf.model.filepath`, or else
/// the title.
pub proof fn path_is_an_annotation(l: DescriptorModel, notes: Map<Seq<char>, Seq<char>>)
    requires
        l.annotations == Some(notes),
    ensures
        notes.contains_key("org.cncf.model.filepath"@) ==> path_of(l) == Some(
            notes["org.cncf.model.filepath"@],
        ),
        !notes.contains_key("org.cncf.model.filepath"@) && notes.contains_key(
            "org.opencontainers.image.title"@,
        ) ==> path_of(l) == Some(notes["org.opencontainers.image.title"@]),
        !notes.contains_key("org.cncf.model.filepath"@) && !notes.contains_key(
            "org.opencontainers.image.title"@,
        ) ==> path_of(l) is None,
{
}

/// A layer holds a GGUF file where its media type says so or its path ends in
/// `.gguf`, and a safetensors file where its path ends in `.safetensors`, in upper
/// or lower case.
pub proof fn kinds_of_layers(l: DescriptorModel, path: Seq<char>)
    requires
        path_of(l) == Some(path),
    ensures
        is_gguf(l) == (l.media_type == "application/vnd.docker.ai.gguf.v3"@
            || ".gguf"@.is_suffix_of(text::lowered(path))),
        is_safetensors(l) == ".safetensors"@.is_suffix_of(text::lowered(path)),
{
}

/// Without a path the media type alone makes a layer one with a GGUF file.
pub proof fn layers_without_a_path(l: DescriptorModel)
    requires
        path_of(l) is None,
    ensures
        is_gguf(l) == (l.media_type == "application/vnd.docker.ai.gguf.v3"@),
        !is_safetensors(l),
{
}

/// A model is served from its first GGUF layer, wherever that stands: its file is
/// found by the digits of the layer's digest, under the layer's path.
pub proof fn first_gguf_layer_is_served(
    r: Result<ModelKind, ModelError>,
    ls: Seq<DescriptorModel>,
    root: Seq<char>,
    cache: Seq<char>,
    model_ref: Seq<char>,
    i: int,
    algorithm: Seq<char>,
    hex: Seq<char>,
)
    requires
        resolves(r, ls, root, cache, model_ref),
        0 <= i < ls.len(),
        is_gguf(ls[i]),
        forall|j: int| 0 <= j < i ==> !is_gguf(#[trigger] ls[j]),
        !algorithm.contains(':'),
        ls[i].digest == algorithm.push(':') + hex,
    ensures
        r matches Ok(ModelKind::Gguf(g)) && {
            &&& g.index == i
            &&& path_of(ls[i]) matches Some(p) ==> g.title@ == p
            &&& path_of(ls[i]) is None ==> g.title@ == "model.gguf"@
            &&& g.dir@ == paths::below(cache, hex)
            &&& (g.direct is Some) == (ls[i].media_type == "application/vnd.docker.ai.gguf.v3"@)
            &&& g.direct matches Some(p) ==> p@ == paths::below(
                paths::below(paths::below(root, "blobs"@), "sha256"@),
                hex,
            )
        },
{
    lemma_gguf_pos(ls, i);
    text::split_parts_make_the_whole(algorithm, ':', hex);
}

/// A model whose first GGUF layer has a digest without an algorithm is not served.
pub proof fn malformed_digest_is_refused(
    r: Result<ModelKind, ModelError>,
    ls: Seq<DescriptorModel>,
    root: Seq<char>,
    cache: Seq<char>,
    model_ref: Seq<char>,
    i: int,
)
    requires
        resolves(r, ls, root, cache, model_ref),
        0 <= i < ls.len(),
        is_gguf(ls[i]),
        forall|j: int| 0 <= j < i ==> !is_gguf(#[trigger] ls[j]),
        !ls[i].digest.contains(':'),
    ensures
        r matches Err(ModelError::MalformedDigest(d)) && d@ == ls[i].digest,
{
    lemma_gguf_pos(ls, i);
    text::split_parts_make_the_whole(ls[i].digest, ':', ls[i].digest);
}

/// A model without a GGUF layer is served from its safetensors layers, where it has
/// one, and otherwise not at all.
pub proof fn without_gguf_layers(
    r: Result<ModelKind, ModelError>,
    ls: Seq<DescriptorModel>,
    root: Seq<char>,
    cache: Seq<char>,
    model_ref: Seq<char>,
)
    requires
        resolves(r, ls, root, cache, model_ref),
        forall|j: int| 0 <= j < ls.len() ==> !is_gguf(#[trigger] ls[j]),
    ensures
        (r matches Ok(ModelKind::SafeTensors)) == exists|j: int|
            0 <= j < ls.len() && is_safetensors(#[trigger] ls[j]),
        r is Err == forall|j: int| 0 <= j < ls.len() ==> !is_safetensors(#[trigger] ls[j]),
        r matches Err(e) ==> (e matches ModelError::NoLayer(m) && m@ == model_ref
            && extensions_of(ls).len() == 0) || (e matches ModelError::Unservable {
            model_ref: m,
            extensions,
        } && m@ == model_ref && text::texts(extensions@) == extensions_of(ls)
            && extensions@.len() > 0),
{
    lemma_gguf_pos_none(ls);
}

/// The extensions that are told of are those of the files, each of them once.
pub proof fn extensions_are_those_of_the_files(ls: Seq<DescriptorModel>)
    ensures
        extensions_of(ls).no_duplicates(),
        forall|i: int|
            #![trigger ls[i]]
            0 <= i < ls.len() ==> (path_of(ls[i]) matches Some(p) ==> (paths::final_suffix(
                p,
            ) matches Some(e) ==> extensions_of(ls).contains(text::lowered(e)))),
        forall|k: int|
            0 <= k < extensions_of(ls).len() ==> exists|i: int|
                0 <= i < ls.len() && extension_of(#[trigger] ls[i]) == Some(
                    #[trigger] extensions_of(ls)[k],
                ),
    decreases ls.len(),
{
    if ls.len() > 0 {
        let d = ls.drop_last();
        extensions_are_those_of_the_files(d);
        let before = extensions_of(d);
        let all = extensions_of(ls);
        let n = ls.len() - 1;
        assert forall|i: int|
            #![trigger ls[i]]
            0 <= i < ls.len() implies (path_of(ls[i]) matches Some(p) ==> (paths::final_suffix(
            p,
        ) matches Some(e) ==> all.contains(text::lowered(e)))) by {
            if i < n {
                assert(d[i] == ls[i]);
            }
            if let Some(p) = path_of(ls[i]) {
                if let Some(e) = paths::final_suffix(p) {
                    let low = text::lowered(e);
                    if i < n || before.contains(low) {
                        let k = choose|k: int| 0 <= k < before.len() && before[k] == low;
                        assert(all[k] == low);
                    } else {
                        assert(all[all.len() - 1] == low);
                    }
                }
            }
        }
        assert forall|k: int| 0 <= k < all.len() implies exists|i: int|
            0 <= i < ls.len() && extension_of(#[trigger] ls[i]) == Some(#[trigger] all[k]) by {
            if k < before.len() {
                assert(all[k] == before[k]);
                let i = choose|i: int|
                    0 <= i < d.len() && extension_of(#[trigger] d[i]) == Some(before[k]);
                assert(ls[i] == d[i]);
            } else {
                assert(extension_of(ls[n]) == Some(all[k]));
            }
        }
    }
}

/// The file that was extracted before is the first one with the extension `gguf`.
pub proof fn first_extracted_file_is_taken(names: Seq<Seq<char>>, i: int)
    requires
        0 <= i < names.len(),
        paths::final_suffix(names[i]) == Some("gguf"@),
        forall|j: int| 0 <= j < i ==> paths::final_suffix(#[trigger] names[j]) != Some("gguf"@),
    ensures
        first_gguf(names) == Some(i),
    decreases names.len(),
{
    if i > 0 {
        let rest = names.drop_first();
        assert(names[0] != names[i] || paths::final_suffix(names[0]) != Some("gguf"@));
        assert forall|j: int| 0 <= j < i - 1 implies paths::final_suffix(#[trigger] rest[j])
            != Some("gguf"@) by {
            assert(rest[j] == names[j + 1]);
        }
        first_extracted_file_is_taken(rest, i - 1);
    }
}

/// Without a file that was extracted before there is none to take.
pub proof fn nothing_extracted_is_taken(names: Seq<Seq<char>>)
    requires
        forall|j: int|
            0 <= j < names.len() ==> paths::final_suffix(#[trigger] names[j]) != Some("gguf"@),
    ensures
        first_gguf(names) is None,
    decreases names.len(),
{
    if names.len() > 0 {
        let rest = names.drop_first();
        assert(names[0] == names[0]);
        assert forall|j: int| 0 <= j < rest.len() implies paths::final_suffix(#[trigger] rest[j])
            != Some("gguf"@) by {
            assert(rest[j] == names[j + 1]);
        }
        nothing_extracted_is_taken(rest);
    }
}

/// The file of a layer is used as it lies where its blob exists, or else as it was
/// extracted before.
pub proof fn blob_goes_before_extracted_files(
    r: Option<GgufPlace>,
    layer: GgufLayer,
    there: bool,
    extracted: Seq<Seq<char>>,
)
    requires
        is_place(r, layer, there, extracted),
    ensures
        there ==> (layer.direct matches Some(path) ==> (r matches Some(GgufPlace::Blob(p)) && p@
            == path@)),
        !there || layer.direct is None ==> (first_gguf(extracted) matches Some(k) ==> (
        r matches Some(GgufPlace::Extracted(i)) && i == k)),
        !there || layer.direct is None ==> (first_gguf(extracted) is None ==> r is None),
{
}

/// The search in an archive ends at the first entry that is a GGUF file or cannot be
/// read, wherever that stands, and passes over every other entry.
pub proof fn first_gguf_entry_is_taken(entries: Seq<Option<Seq<u8>>>, i: int)
    requires
        0 <= i < entries.len(),
        entries[i] matches Some(path) ==> is_gguf_path(path),
        forall|j: int|
            0 <= j < i ==> (#[trigger] entries[j] matches Some(path) && !is_gguf_path(path)),
    ensures
        stop_pos(entries) == Some(i),
    decreases entries.len(),
{
    if i > 0 {
        let rest = entries.drop_first();
        assert(entries[0] is Some);
        assert forall|j: int| 0 <= j < i - 1 implies (#[trigger] rest[j] matches Some(path)
            && !is_gguf_path(path)) by {
            assert(rest[j] == entries[j + 1]);
        }
        first_gguf_entry_is_taken(rest, i - 1);
    }
}

/// An archive whose entries can be read and are no GGUF files is searched in vain.
pub proof fn no_gguf_entry_is_taken(entries: Seq<Option<Seq<u8>>>)
    requires
        forall|j: int|
            0 <= j < entries.len() ==> (#[trigger] entries[j] matches Some(path) && !is_gguf_path(
                path,
            )),
    ensures
        stop_pos(entries) is None,
    decreases entries.len(),
{
    if entries.len() > 0 {
        let rest = entries.drop_first();
        assert(entries[0] is Some);
        assert forall|j: int| 0 <= j < rest.len() implies (#[trigger] rest[j] matches Some(path)
            && !is_gguf_path(path)) by {
            assert(rest[j] == entries[j + 1]);
        }
        no_gguf_entry_is_taken(rest);
    }
}

/// A name in bytes is that of a GGUF file where something stands before `.gguf` at
/// its end.
pub proof fn gguf_names_end_in_gguf(stem: Seq<u8>, name: Seq<u8>)
    ensures
        is_gguf_name(stem + seq![46u8, 103u8, 103u8, 117u8, 102u8]) == (stem.len() > 0),
        is_gguf_name(name) ==> name.len() > 5 && name[name.len() - 5] == 46 && name[name.len() - 4]
            == 103 && name[name.len() - 3] == 103 && name[name.len() - 2] == 117 && name[name.len()
            - 1] == 102,
{
    let end = seq![46u8, 103u8, 103u8, 117u8, 102u8];
    let whole = stem + end;
    assert(whole.subrange(whole.len() - 5, whole.len() as int) =~= end);
    if is_gguf_name(name) {
        let tail = name.subrange(name.len() - 5, name.len() as int);
        assert(tail[0] == 46 && tail[1] == 103 && tail[2] == 103 && tail[3] == 117 && tail[4]
            == 102);
    }
}

/// A blob that starts with `GGUF` is the file, and is kept under the last component
/// of its layer's path.
pub proof fn raw_gguf_is_kept_whole(
    r: Result<GgufSource, ModelError>,
    blob: Seq<u8>,
    title: Seq<char>,
    dir: Seq<char>,
    model_ref: Seq<char>,
)
    requires
        yields(r, blob, title, dir, model_ref),
        blob.len() >= 4 && blob[0] == 71 && blob[1] == 71 && blob[2] == 85 && blob[3] == 70,
    ensures
        r matches Ok(GgufSource::Whole { dest }) && {
            &&& paths::final_name(title) matches Some(name) ==> dest@ == paths::below(dir, name)
            &&& paths::final_name(title) is None ==> dest@ == paths::below(dir, "model.gguf"@)
        },
{
    assert(blob.subrange(0, 4) =~= seq![71u8, 71u8, 85u8, 70u8]);
}

/// Any other blob is searched as an archive: the first GGUF file in it is taken and
/// kept under its own name.
pub proof fn archived_gguf_is_taken(
    r: Result<GgufSource, ModelError>,
    blob: Seq<u8>,
    title: Seq<char>,
    dir: Seq<char>,
    model_ref: Seq<char>,
    i: int,
    path: Seq<u8>,
    name: Seq<u8>,
)
    requires
        yields(r, blob, title, dir, model_ref),
        archive::is_listable(blob),
        blob.len() < 4 || blob[0] != 71 || blob[1] != 71 || blob[2] != 85 || blob[3] != 70,
        0 <= i < archive::entry_paths(blob).len(),
        archive::entry_paths(blob)[i] == Some(path),
        is_gguf_path(path),
        forall|j: int|
            0 <= j < i ==> (#[trigger] archive::entry_paths(blob)[j] matches Some(p)
                && !is_gguf_path(p)),
        paths::name_bytes(path) == Some(name),
        utf8::valid_utf8(name),
    ensures
        r matches Ok(GgufSource::Entry { index, dest }) && index == i && dest@ == paths::below(
            dir,
            utf8::decode_utf8(name),
        ),
{
    archive::lemma_listable_part(blob);
    first_gguf_entry_is_taken(archive::entry_paths(blob), i);
    let magic = seq![71u8, 71u8, 85u8, 70u8];
    if is_raw(blob) {
        let start = blob.subrange(0, 4);
        assert(start =~= magic);
        assert(start[0] == 71 && start[1] == 71 && start[2] == 85 && start[3] == 70);
    }
}

/// The model is served from the directory in which its first `config.json` lies,
/// wherever that stands among the layers.
pub proof fn model_lies_where_its_config_lies(
    ls: Seq<DescriptorModel>,
    dir: Seq<char>,
    i: int,
    path: Seq<char>,
)
    requires
        0 <= i < ls.len(),
        path_of(ls[i]) == Some(path),
        paths::final_name(path) == Some("config.json"@),
        forall|j: int|
            0 <= j < i ==> (path_of(#[trigger] ls[j]) matches Some(p) ==> paths::final_name(p)
                != Some("config.json"@)),
    ensures
        model_dir(ls, dir) == paths::above(paths::below(dir, path)),
    decreases ls.len(),
{
    if i > 0 {
        let rest = ls.drop_first();
        assert(path_of(ls[0]) matches Some(p) ==> paths::final_name(p) != Some("config.json"@));
        assert forall|j: int| 0 <= j < i - 1 implies (path_of(#[trigger] rest[j]) matches Some(p)
            ==> paths::final_name(p) != Some("config.json"@)) by {
            assert(rest[j] == ls[j + 1]);
        }
        model_lies_where_its_config_lies(rest, dir, i - 1, path);
    }
}

/// Only a model without a `config.json` is served from the whole directory.
pub proof fn model_without_a_config_is_the_directory(ls: Seq<DescriptorModel>, dir: Seq<char>)
    requires
        forall|j: int|
            0 <= j < ls.len() ==> (path_of(#[trigger] ls[j]) matches Some(p) ==> paths::final_name(
                p,
            ) != Some("config.json"@)),
    ensures
        model_dir(ls, dir) == Some(dir),
    decreases ls.len(),
{
    if ls.len() > 0 {
        let rest = ls.drop_first();
        assert(path_of(ls[0]) matches Some(p) ==> paths::final_name(p) != Some("config.json"@));
        assert forall|j: int| 0 <= j < rest.len() implies (path_of(
            #[trigger] rest[j],
        ) matches Some(p) ==> paths::final_name(p) != Some("config.json"@)) by {
            assert(rest[j] == ls[j + 1]);
        }
        model_without_a_config_is_the_directory(rest, dir);
    }
}

/// Every weight and configuration layer with a path is copied, in the order of the
/// layers, to its path below the directory, from the blob with its digits.
pub proof fn every_weight_is_copied(ls: Seq<DescriptorModel>, root: Seq<char>, dir: Seq<char>)
    ensures
        copies_of(ls, root, dir) == ls.filter(
            |l: DescriptorModel|
                path_of(l) is Some && (l.media_type
                    == "application/vnd.cncf.model.weight.config.v1.raw"@ || l.media_type
                    == "application/vnd.cncf.model.weight.v1.raw"@),
        ).map_values(
            |l: DescriptorModel|
                CopyModel {
                    rel_path: path_of(l)->0,
                    dest: paths::below(dir, path_of(l)->0),
                    source: match text::split_at_first(l.digest, ':') {
                        Some(p) => Some(
                            paths::below(
                                paths::below(paths::below(root, "blobs"@), "sha256"@),
                                p.1,
                            ),
                        ),
                        None => None,
                    },
                },
        ),
    decreases ls.len(),
{
    reveal(Seq::filter);
    let wanted = |l: DescriptorModel|
        path_of(l) is Some && (l.media_type == "application/vnd.cncf.model.weight.config.v1.raw"@
            || l.media_type == "application/vnd.cncf.model.weight.v1.raw"@);
    let copy = |l: DescriptorModel|
        CopyModel {
            rel_path: path_of(l)->0,
            dest: paths::below(dir, path_of(l)->0),
            source: match text::split_at_first(l.digest, ':') {
                Some(p) => Some(
                    paths::below(paths::below(paths::below(root, "blobs"@), "sha256"@), p.1),
                ),
                None => None,
            },
        };
    if ls.len() > 0 {
        let d = ls.drop_last();
        every_weight_is_copied(d, root, dir);
        assert(copies_of(d, root, dir) == d.filter(wanted).map_values(copy));
        assert(copies_of(ls, root, dir) =~= ls.filter(wanted).map_values(copy));
    } else {
        assert(copies_of(ls, root, dir) =~= ls.filter(wanted).map_values(copy));
    }
}

/// An archive in which an entry cannot be read before a GGUF file was found is
/// refused, and so is one that holds none.
pub proof fn archives_without_gguf_are_refused(
    r: Result<GgufSource, ModelError>,
    blob: Seq<u8>,
    title: Seq<char>,
    dir: Seq<char>,
    model_ref: Seq<char>,
    i: int,
)
    requires
        yields(r, blob, title, dir, model_ref),
        archive::is_listable(blob),
        blob.len() < 4 || blob[0] != 71 || blob[1] != 71 || blob[2] != 85 || blob[3] != 70,
        forall|j: int|
            0 <= j < i && j < archive::entry_paths(blob).len() ==> (
            #[trigger] archive::entry_paths(blob)[j] matches Some(p) && !is_gguf_path(p)),
    ensures
        0 <= i < archive::entry_paths(blob).len() && archive::entry_paths(blob)[i] is None ==> (
        r matches Err(ModelError::UnreadableEntry(k)) && k == i),
        i >= archive::entry_paths(blob).len() ==> (r matches Err(ModelError::NoGgufInTar(m)) && m@
            == model_ref),
{
    archive::lemma_listable_part(blob);
    let entries = archive::entry_paths(blob);
    let magic = seq![71u8, 71u8, 85u8, 70u8];
    if is_raw(blob) {
        let start = blob.subrange(0, 4);
        assert(start =~= magic);
        assert(start[0] == 71 && start[1] == 71 && start[2] == 85 && start[3] == 70);
    }
    if 0 <= i < entries.len() && entries[i] is None {
        first_gguf_entry_is_taken(entries, i);
    }
    if i >= entries.len() {
        no_gguf_entry_is_taken(entries);
    }
}

/// A path in bytes is that of a GGUF file where its name is that of one.
pub proof fn gguf_paths_have_gguf_names(path: Seq<u8>)
    ensures
        paths::name_bytes(path) matches Some(name) ==> is_gguf_path(path) == is_gguf_name(name),
        paths::name_bytes(path) is None ==> !is_gguf_path(path),
{
}

/// What a list of copies says is what the fields of each of them hold, in their
/// order.
pub proof fn copies_say_their_fields(v: Seq<LayerCopy>, i: int)
    requires
        0 <= i < v.len(),
    ensures
        copy_models(v).len() == v.len(),
        copy_models(v)[i].rel_path == v[i].rel_path@,
        copy_models(v)[i].dest == v[i].dest@,
        v[i].source matches Some(p) ==> copy_models(v)[i].source == Some(p@),
        v[i].source is None ==> copy_models(v)[i].source is None,
{
}

/// Errors name what they are about.
pub proof fn errors_name_their_cause(s: String, i: usize, extensions: Vec<String>)
    ensures
        ModelError::MalformedDigest(s).words() == "malformed digest: "@ + s@,
        ModelError::MalformedManifestDigest.words() == "malformed manifest digest"@,
        ModelError::MalformedLayerDigest.words() == "malformed layer digest"@,
        ModelError::NoGgufInTar(s).words() == "no .gguf in tar layer of "@ + s@,
        ModelError::UnreadableEntry(i).words() == "unreadable archive entry "@ + text::decimal(
            i as nat,
        ),
        ModelError::NoLayer(s).words() == "no servable model layer found in "@ + s@,
        (ModelError::Unservable { model_ref: s, extensions }).words()
            == "no servable model layer in "@ + s@ + " — found {"@ + text::joined(
            extensions@.map_values(|e: String| text::quoted(e@)),
            ", "@,
        ) + "} files; llmman serve supports GGUF (llama-server) and safetensors (vllm)"@,
        ModelError::NoParent.words() == "config.json has no parent directory"@,
        ModelError::NotUnicode.words() == "non-UTF-8 model path"@,
{
    assert(all_quoted(text::texts(extensions@)) =~= extensions@.map_values(
        |e: String| text::quoted(e@),
    ));
}

/// A GGUF file whose name in the archive is no UTF-8 is refused as such.
pub proof fn archived_names_are_unicode(
    r: Result<GgufSource, ModelError>,
    blob: Seq<u8>,
    title: Seq<char>,
    dir: Seq<char>,
    model_ref: Seq<char>,
    i: int,
    path: Seq<u8>,
    name: Seq<u8>,
)
    requires
        yields(r, blob, title, dir, model_ref),
        archive::is_listable(blob),
        blob.len() < 4 || blob[0] != 71 || blob[1] != 71 || blob[2] != 85 || blob[3] != 70,
        0 <= i < archive::entry_paths(blob).len(),
        archive::entry_paths(blob)[i] == Some(path),
        is_gguf_path(path),
        forall|j: int|
            0 <= j < i ==> (#[trigger] archive::entry_paths(blob)[j] matches Some(p)
                && !is_gguf_path(p)),
        paths::name_bytes(path) == Some(name),
        !utf8::valid_utf8(name),
    ensures
        r matches Err(ModelError::NotUnicode),
{
    archive::lemma_listable_part(blob);
    first_gguf_entry_is_taken(archive::entry_paths(blob), i);
    let magic = seq![71u8, 71u8, 85u8, 70u8];
    if is_raw(blob) {
        let start = blob.subrange(0, 4);
        assert(start =~= magic);
        assert(start[0] == 71 && start[1] == 71 && start[2] == 85 && start[3] == 70);
    }
}

/// An archive that can be listed only in part, and without a GGUF file in that part,
/// is refused at the entry behind it.
pub proof fn archives_are_read_as_far_as_they_go(
    r: Result<GgufSource, ModelError>,
    blob: Seq<u8>,
    title: Seq<char>,
    dir: Seq<char>,
    model_ref: Seq<char>,
)
    requires
        yields(r, blob, title, dir, model_ref),
        !archive::is_listable(blob),
        blob.len() < 4 || blob[0] != 71 || blob[1] != 71 || blob[2] != 85 || blob[3] != 70,
        forall|j: int|
            0 <= j < archive::entry_paths(archive::listable_part(blob)).len() ==> (
            #[trigger] archive::entry_paths(archive::listable_part(blob))[j] matches Some(p)
                && !is_gguf_path(p)),
    ensures
        r matches Err(ModelError::UnreadableEntry(k)) && k == archive::entry_paths(
            archive::listable_part(blob),
        ).len(),
{
    archive::lemma_listable_part(blob);
    let part = archive::listable_part(blob);
    if part.len() == blob.len() {
        assert(part =~= blob);
    }
    no_gguf_entry_is_taken(archive::entry_paths(part));
    let magic = seq![71u8, 71u8, 85u8, 70u8];
    if is_raw(blob) {
        let start = blob.subrange(0, 4);
        assert(start =~= magic);
        assert(start[0] == 71 && start[1] == 71 && start[2] == 85 && start[3] == 70);
    }
}

/// The annotation and the media types by which models are known.
pub proof fn models_go_by_these_names()
    ensures
        FILEPATH@ == "org.cncf.model.filepath"@,
        HF_GGUF_MEDIA_TYPE@ == "application/vnd.docker.ai.gguf.v3"@,
        WEIGHT_CONFIG_MEDIA_TYPE@ == "application/vnd.cncf.model.weight.config.v1.raw"@,
        WEIGHT_MEDIA_TYPE@ == "application/vnd.cncf.model.weight.v1.raw"@,
        GGUF_NAME@ == "model.gguf"@,
{
}

} // verus!
