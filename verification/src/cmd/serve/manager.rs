//! The inference servers: which run, which has to be started, and how.

use vstd::prelude::*;
use crate::paths;
use crate::shortnames;
use crate::storage::oci;
use crate::storage::oci::{Descriptor, DescriptorModel, OciStore};
use crate::string_map::StringMap;
use crate::text;

verus! {

/// Where inference servers listen.
pub const HOST: &'static str = "127.0.0.1";

/// Seconds after which an inference server counts as failed.
pub const READY_SECONDS: u64 = 600;

/// Milliseconds between two questions whether an inference server is up.
pub const READY_PAUSE: u64 = 500;

// ---------------------------------------------------------------------------
// Canonical references
// ---------------------------------------------------------------------------

/// The reference of the image that `reference` stands for.
pub open spec fn stored_name(ms: Seq<DescriptorModel>, reference: Seq<char>) -> Option<Seq<char>> {
    match oci::lookup(ms, reference) {
        Some(d) => oci::ref_name(d),
        None => None,
    }
}

/// The canonical form of a reference: that of the image that it stands for.  A
/// reference without a tag may also stand for the image with the tag `latest`.
/// A reference that stands for no image is kept as it is.
pub open spec fn canonical(ms: Seq<DescriptorModel>, reference: Seq<char>) -> Seq<char> {
    match stored_name(ms, reference) {
        Some(name) => name,
        None => if oci::tag_colon(reference) is Some {
            reference
        } else {
            match stored_name(ms, reference + ":latest"@) {
                Some(name) => name,
                None => reference,
            }
        },
    }
}

/// The canonical form of a reference, where the store can be read.
pub open spec fn canonical_in(store: Option<&OciStore>, reference: Seq<char>) -> Seq<char> {
    match store {
        Some(s) => canonical(s@.index.manifests, reference),
        None => reference,
    }
}

/// The image that a reference stands for in requests: the one with its canonical
/// reference.
pub open spec fn image_of(ms: Seq<DescriptorModel>, reference: Seq<char>) -> Option<
    DescriptorModel,
> {
    oci::lookup(ms, canonical(ms, reference))
}

/// The image that a reference stands for in requests.
pub fn find_image(store: &OciStore, model_ref: &str) -> (r: Option<Descriptor>)
    ensures
        match r {
            Some(d) => image_of(store@.index.manifests, model_ref@) == Some(d@),
            None => image_of(store@.index.manifests, model_ref@) is None,
        },
{
    let key: String = canonical_ref(Some(store), model_ref);
    match store.find(key.as_str()) {
        Ok(d) => Some(d),
        Err(_) => None,
    }
}

fn find_name(store: &OciStore, reference: &str) -> (r: Option<String>)
    ensures
        text::opt_text(r) == stored_name(store@.index.manifests, reference@),
{
    match store.find(reference) {
        Ok(d) => match d.annotation(oci::REF_NAME) {
            Some(name) => Some(name.to_string()),
            None => None,
        },
        Err(_) => None,
    }
}

/// The canonical form of a reference, so that every reference to an image leads
/// to the same process.
pub fn canonical_ref(store: Option<&OciStore>, model_ref: &str) -> (r: String)
    ensures
        r@ == canonical_in(store, model_ref@),
{
    match store {
        Some(s) => {
            match find_name(s, model_ref) {
                Some(name) => name,
                None => {
                    if oci::has_tag(model_ref) {
                        return model_ref.to_string();
                    }
                    match find_name(s, text::concat2(model_ref, ":latest").as_str()) {
                        Some(name) => name,
                        None => model_ref.to_string(),
                    }
                },
            }
        },
        None => model_ref.to_string(),
    }
}

// ---------------------------------------------------------------------------
// Running servers
// ---------------------------------------------------------------------------

/// A server for one model.
#[derive(Debug)]
pub struct RunningModel<C> {
    pub child: C,
    pub port: u16,
}

/// The servers that run, by the canonical reference of their model.
#[derive(Debug)]
pub struct ModelManager<C> {
    running: Vec<(String, RunningModel<C>)>,
}

spec fn runs_at<C>(e: Seq<(String, RunningModel<C>)>, k: Seq<char>, i: int) -> bool {
    0 <= i < e.len() && e[i].0@ == k
}

spec fn index_of<C>(e: Seq<(String, RunningModel<C>)>, k: Seq<char>) -> int {
    choose|i: int| runs_at(e, k, i)
}

impl<C> View for ModelManager<C> {
    type V = Map<Seq<char>, RunningModel<C>>;

    closed spec fn view(&self) -> Map<Seq<char>, RunningModel<C>> {
        Map::new(
            |k: Seq<char>| exists|i: int| runs_at(self.running@, k, i),
            |k: Seq<char>| self.running@[index_of(self.running@, k)].1,
        )
    }
}

/// What to do for a request.
#[derive(Debug)]
pub enum Ensure {
    /// The server of the model listens on this port.
    Running(u16),
    /// Start a server for the model with this canonical reference.
    Load(String),
}

/// What to do for a request, where `key` is the canonical reference.
pub open spec fn ensured<C>(
    e: Ensure,
    running: Map<Seq<char>, RunningModel<C>>,
    key: Seq<char>,
) -> bool {
    if running.contains_key(key) {
        e matches Ensure::Running(port) && port == running[key].port
    } else {
        e matches Ensure::Load(m) && m@ == key
    }
}

impl<C> ModelManager<C> {
    #[verifier::type_invariant]
    spec fn models_distinct(self) -> bool {
        forall|i: int, j: int|
            0 <= i < j < self.running@.len() ==> #[trigger] self.running@[i].0@
                != #[trigger] self.running@[j].0@
    }

    /// No server runs.
    pub fn new() -> (r: Self)
        ensures
            r@ == Map::<Seq<char>, RunningModel<C>>::empty(),
    {
        let r = ModelManager { running: Vec::new() };
        assert(r@ =~= Map::<Seq<char>, RunningModel<C>>::empty());
        r
    }

    fn position(&self, model: &str) -> (r: Option<usize>)
        ensures
            match r {
                Some(i) => runs_at(self.running@, model@, i as int),
                None => forall|i: int| !#[trigger] runs_at(self.running@, model@, i),
            },
    {
        let mut i: usize = 0;
        while i < self.running.len()
            invariant
                i <= self.running.len(),
                forall|j: int| j < i ==> !#[trigger] runs_at(self.running@, model@, j),
            decreases self.running.len() - i,
        {
            if text::same(self.running[i].0.as_str(), model) {
                return Some(i);
            }
            i += 1;
        }
        None
    }

    /// The port of the server for the model with this canonical reference.
    pub fn port(&self, model: &str) -> (r: Option<u16>)
        ensures
            r == (if self@.contains_key(model@) {
                Some(self@[model@].port)
            } else {
                None
            }),
    {
        proof {
            use_type_invariant(self);
        }
        match self.position(model) {
            Some(i) => {
                assert(index_of(self.running@, model@) == i);
                Some(self.running[i].1.port)
            },
            None => None,
        }
    }

    /// What to do for a request for `model_ref`.
    pub fn ensure_model(
        &self,
        store: Option<&OciStore>,
        model_ref: &str,
        aliases: &StringMap,
    ) -> (r: Ensure)
        ensures
            ensured(
                r,
                self@,
                canonical_in(store, shortnames::resolved(aliases@, model_ref@)),
            ),
    {
        let resolved: String = shortnames::resolve(model_ref, aliases);
        let key: String = canonical_ref(store, resolved.as_str());
        match self.port(key.as_str()) {
            Some(port) => Ensure::Running(port),
            None => Ensure::Load(key),
        }
    }

    /// Takes in the server for a model.  One that ran for it before is dropped.
    pub fn insert(&mut self, model: String, server: RunningModel<C>)
        ensures
            final(self)@ == old(self)@.insert(model@, server),
    {
        proof {
            use_type_invariant(&*self);
        }
        let found: Option<usize> = self.position(model.as_str());
        let ghost new = server;
        let mut e: Vec<(String, RunningModel<C>)> = Vec::new();
        let ghost before = self.running@;
        let ghost servers = self@;
        core::mem::swap(&mut e, &mut self.running);
        match found {
            Some(i) => {
                e.set(i, (model, server));
                assert(forall|j: int| 0 <= j < e@.len() ==> e@[j].0@ == #[trigger] before[j].0@);
            },
            None => {
                e.push((model, server));
                assert forall|i: int, j: int| 0 <= i < j < e@.len() implies #[trigger] e@[i].0@
                    != #[trigger] e@[j].0@ by {
                    assert(!runs_at(before, model@, i));
                }
            },
        }
        let ghost after = e@;
        self.running = e;
        proof {
            let at: int = match found {
                Some(i) => i as int,
                None => before.len() as int,
            };
            assert forall|k: Seq<char>| #[trigger]
                self@.contains_key(k) == servers.insert(model@, new).contains_key(k) by {
                if k == model@ {
                    assert(runs_at(after, k, at));
                } else {
                    assert forall|i: int|
                        runs_at(after, k, i) == #[trigger] runs_at(before, k, i) by {
                        if 0 <= i < before.len() {
                            assert(after[i].0@ == before[i].0@);
                        }
                    }
                    if exists|i: int| runs_at(before, k, i) {
                        assert(runs_at(after, k, index_of(before, k)));
                    }
                    if exists|i: int| runs_at(after, k, i) {
                        assert(runs_at(before, k, index_of(after, k)));
                    }
                }
            }
            assert forall|k: Seq<char>| #[trigger] self@.contains_key(k) implies self@[k]
                == servers.insert(model@, new)[k] by {
                let a = index_of(after, k);
                assert(runs_at(after, k, a));
                if k == model@ {
                    assert(runs_at(after, k, at));
                    assert(a == at);
                } else {
                    assert(a < before.len() && after[a] == before[a]);
                    assert(runs_at(before, k, a));
                    assert(index_of(before, k) == a);
                }
            }
            assert(self@ =~= servers.insert(model@, new));
        }
    }

    /// The models whose servers run, each once.
    pub fn names(&self) -> (r: Vec<String>)
        ensures
            forall|i: int, j: int| 0 <= i < j < r@.len() ==> r@[i]@ != r@[j]@,
            forall|k: Seq<char>| #[trigger]
                self@.contains_key(k) == text::texts(r@).contains(k),
    {
        proof {
            use_type_invariant(self);
        }
        let mut r: Vec<String> = Vec::new();
        let mut i: usize = 0;
        while i < self.running.len()
            invariant
                i <= self.running.len(),
                r@.len() == i,
                forall|j: int| 0 <= j < i ==> #[trigger] r@[j]@ == self.running@[j].0@,
            decreases self.running.len() - i,
        {
            r.push(self.running[i].0.clone());
            i += 1;
        }
        proof {
            assert forall|k: Seq<char>| #[trigger]
                self@.contains_key(k) == text::texts(r@).contains(k) by {
                if self@.contains_key(k) {
                    let a = index_of(self.running@, k);
                    assert(runs_at(self.running@, k, a));
                    assert(text::texts(r@)[a] == r@[a]@);
                }
                if text::texts(r@).contains(k) {
                    let a = choose|a: int| 0 <= a < r@.len() && text::texts(r@)[a] == k;
                    assert(r@[a]@ == k);
                    assert(runs_at(self.running@, k, a));
                }
            }
        }
        r
    }
}

// ---------------------------------------------------------------------------
// Starting a server
// ---------------------------------------------------------------------------

/// Arguments for llama-server.
pub open spec fn llama_args(model: Seq<char>, port: u16) -> Seq<Seq<char>> {
    seq![
        "--model"@,
        model,
        "--port"@,
        text::decimal(port as nat),
        "--host"@,
        HOST@,
    ]
}

/// Arguments for vllm.  The model goes by the name that requests give it.
pub open spec fn vllm_args(dir: Seq<char>, port: u16, name: Seq<char>) -> Seq<Seq<char>> {
    seq![
        "serve"@,
        dir,
        "--port"@,
        text::decimal(port as nat),
        "--host"@,
        HOST@,
        "--served-model-name"@,
        name,
    ]
}

/// Arguments with which llama-server is started.
pub fn spawn_llama_server(model: &str, port: u16) -> (r: Vec<String>)
    ensures
        text::texts(r@) == llama_args(model@, port),
{
    let mut r: Vec<String> = Vec::new();
    r.push("--model".to_string());
    r.push(model.to_string());
    r.push("--port".to_string());
    r.push(text::decimal_of(port as u64));
    r.push("--host".to_string());
    r.push(HOST.to_string());
    assert(text::texts(r@) =~= llama_args(model@, port));
    r
}

/// Arguments with which vllm is started.
pub fn spawn_vllm_server(model_dir: &str, port: u16, model_name: &str) -> (r: Vec<String>)
    ensures
        text::texts(r@) == vllm_args(model_dir@, port, model_name@),
{
    let mut r: Vec<String> = Vec::new();
    r.push("serve".to_string());
    r.push(model_dir.to_string());
    r.push("--port".to_string());
    r.push(text::decimal_of(port as u64));
    r.push("--host".to_string());
    r.push(HOST.to_string());
    r.push("--served-model-name".to_string());
    r.push(model_name.to_string());
    assert(text::texts(r@) =~= vllm_args(model_dir@, port, model_name@));
    r
}

/// The path that `which` printed.
pub open spec fn which_path(success: bool, output: Seq<u8>) -> Option<Seq<char>> {
    let path = text::trimmed(text::decoded(output));
    if success && path.len() > 0 {
        Some(path)
    } else {
        None
    }
}

/// The path of a program, out of what `which` printed; the error says that
/// there is none.
pub fn which_binary(name: &str, success: bool, output: &[u8]) -> (r: Result<String, String>)
    ensures
        match which_path(success, output@) {
            Some(path) => r matches Ok(p) && p@ == path,
            None => r matches Err(e) && e@ == name@ + " not found on PATH"@,
        },
{
    if success {
        let printed: String = text::decode_lossy(output);
        let path: &str = text::trim(printed.as_str());
        if !path.is_empty() {
            return Ok(path.to_string());
        }
    }
    Err(text::concat2(name, " not found on PATH"))
}

/// Well-known places of llama-server.
pub open spec fn llama_places() -> Seq<Seq<char>> {
    seq![
        "/usr/local/bin/llama-server"@,
        "/usr/bin/llama-server"@,
        "/opt/homebrew/bin/llama-server"@,
    ]
}

/// Well-known places of llama-server, in the order in which they are tried.
pub fn llama_server_places() -> (r: Vec<String>)
    ensures
        text::texts(r@) == llama_places(),
{
    let mut r: Vec<String> = Vec::new();
    r.push("/usr/local/bin/llama-server".to_string());
    r.push("/usr/bin/llama-server".to_string());
    r.push("/opt/homebrew/bin/llama-server".to_string());
    assert(text::texts(r@) =~= llama_places());
    r
}

/// The first of the well-known places that is there.
pub open spec fn first_place(there: Seq<bool>) -> Option<Seq<char>> {
    if there.len() > 0 && there[0] {
        Some(llama_places()[0])
    } else if there.len() > 1 && there[1] {
        Some(llama_places()[1])
    } else if there.len() > 2 && there[2] {
        Some(llama_places()[2])
    } else {
        None
    }
}

/// The place of llama-server: the first well-known one that is there, or else
/// the one that `which` found.  `there` tells of each well-known place whether
/// something is there.
pub fn resolve_llama_server(there: &Vec<bool>, found: Option<String>) -> (r: Result<
    String,
    String,
>)
    ensures
        match first_place(there@) {
            Some(place) => r matches Ok(p) && p@ == place,
            None => match found {
                Some(f) => r matches Ok(p) && p@ == f@,
                None => r matches Err(e) && e@
                    == "llama-server not found; install llama.cpp and ensure it is on PATH"@,
            },
        },
{
    let places: Vec<String> = llama_server_places();
    assert(places@.len() == text::texts(places@).len() == 3);
    assert(forall|i: int| 0 <= i < 3 ==> #[trigger] places@[i]@ == text::texts(places@)[i]);
    let mut i: usize = 0;
    while i < there.len() && i < 3
        invariant
            i <= 3,
            i <= there.len(),
            forall|j: int| 0 <= j < i ==> !#[trigger] there@[j],
            places@.len() == 3,
            forall|j: int| 0 <= j < 3 ==> #[trigger] places@[j]@ == llama_places()[j],
        decreases 3 - i,
    {
        if there[i] {
            return Ok(places[i].clone());
        }
        i += 1;
    }
    match found {
        Some(f) => Ok(f),
        None => Err(
            "llama-server not found; install llama.cpp and ensure it is on PATH".to_string(),
        ),
    }
}

/// Address of a path on an inference server.
pub open spec fn local_url(port: u16, path: Seq<char>) -> Seq<char> {
    "http://127.0.0.1:"@ + text::decimal(port as nat) + path
}

/// Address of a path on an inference server.
pub fn backend_url(port: u16, path: &str) -> (r: String)
    ensures
        r@ == local_url(port, path@),
{
    text::concat3("http://127.0.0.1:", text::decimal_of(port as u64).as_str(), path)
}

/// Says that an inference server did not come up in time.
pub fn not_ready(port: u16) -> (r: String)
    ensures
        r@ == "inference server on port "@ + text::decimal(port as nat)
            + " did not become ready within 600s"@,
{
    text::concat3(
        "inference server on port ",
        text::decimal_of(port as u64).as_str(),
        " did not become ready within 600s",
    )
}

/// Where extracted models are kept: beside the store.
pub fn cache_path(store_path: &str) -> (r: String)
    ensures
        r@ == paths::below(
            match paths::above(store_path@) {
                Some(p) => p,
                None => store_path@,
            },
            "cache"@,
        ),
{
    let dir: &str = match paths::parent(store_path) {
        Some(p) => p,
        None => store_path,
    };
    paths::join(dir, "cache")
}

// ---------------------------------------------------------------------------
// Laws
// ---------------------------------------------------------------------------

/// A reference without a tag leads to the process of the image with the tag
/// `latest`, where nothing is stored under the reference itself.
pub proof fn untagged_means_latest(
    ms: Seq<DescriptorModel>,
    reference: Seq<char>,
    i: int,
)
    requires
        0 <= i < ms.len(),
        oci::is_named(ms[i], reference + ":latest"@),
        oci::lookup(ms, reference) is None,
        oci::tag_colon(reference) is None,
    ensures
        canonical(ms, reference) == reference + ":latest"@,
        canonical(ms, reference) == canonical(ms, reference + ":latest"@),
{
    oci::lemma_named_pos(ms, reference + ":latest"@);
}

/// An image that is stored with the tag `latest` is the one that requests without a
/// tag mean, where nothing else goes by the reference.
pub proof fn untagged_request_means_latest(
    ms: Seq<DescriptorModel>,
    d: DescriptorModel,
    reference: Seq<char>,
)
    requires
        oci::tag_colon(reference) is None,
        oci::lookup(oci::tagged(ms, d, reference + ":latest"@), reference) is None,
    ensures
        image_of(oci::tagged(ms, d, reference + ":latest"@), reference) == Some(
            oci::renamed(d, reference + ":latest"@),
        ),
{
    oci::tagged_image_is_found(ms, d, reference + ":latest"@);
}

/// A reference under which an image is found stands for an image in requests too.
pub proof fn stored_image_is_meant(ms: Seq<DescriptorModel>, reference: Seq<char>)
    requires
        oci::lookup(ms, reference) is Some,
    ensures
        image_of(ms, reference) is Some,
{
    if stored_name(ms, reference) is Some {
        lemma_stored_name(ms, reference);
    } else if oci::tag_colon(reference) is None && stored_name(ms, reference + ":latest"@) is Some {
        lemma_stored_name(ms, reference + ":latest"@);
    }
}

/// The canonical form of a reference is its own canonical form.
pub proof fn canonical_reference_is_settled(ms: Seq<DescriptorModel>, reference: Seq<char>)
    ensures
        canonical(ms, canonical(ms, reference)) == canonical(ms, reference),
{
    if stored_name(ms, reference) is Some {
        lemma_stored_name(ms, reference);
    } else if oci::tag_colon(reference) is None && stored_name(ms, reference + ":latest"@) is Some {
        lemma_stored_name(ms, reference + ":latest"@);
    }
}

proof fn lemma_stored_name(ms: Seq<DescriptorModel>, reference: Seq<char>)
    requires
        stored_name(ms, reference) is Some,
    ensures
        stored_name(ms, stored_name(ms, reference)->0) == stored_name(ms, reference),
{
    oci::lemma_named_pos(ms, reference);
    oci::lemma_matching_pos(ms, reference);
    oci::lemma_named_pos(ms, stored_name(ms, reference)->0);
}

/// Once the server of a model runs, every request for the model goes to it, and
/// requests for other models are answered as before.
pub proof fn loaded_model_is_reused<C>(
    running: Map<Seq<char>, RunningModel<C>>,
    model: Seq<char>,
    server: RunningModel<C>,
    key: Seq<char>,
    e: Ensure,
)
    requires
        ensured(e, running.insert(model, server), key),
    ensures
        key == model ==> e == Ensure::Running(server.port),
        key != model ==> ensured(e, running, key),
{
}

/// A reference under which an image is stored is its own canonical form, and so is a
/// reference that nothing matches, with or without the tag `latest`.
pub proof fn stored_reference_is_canonical(
    ms: Seq<DescriptorModel>,
    reference: Seq<char>,
    i: int,
)
    ensures
        0 <= i < ms.len() && oci::is_named(ms[i], reference) ==> canonical(ms, reference)
            == reference,
        (forall|j: int|
            0 <= j < ms.len() ==> !oci::matches(#[trigger] ms[j], reference) && !oci::matches(
                ms[j],
                reference + ":latest"@,
            )) ==> canonical(ms, reference) == reference,
{
    oci::lemma_named_pos(ms, reference);
    oci::lemma_matching_pos(ms, reference);
    oci::lemma_named_pos(ms, reference + ":latest"@);
    oci::lemma_matching_pos(ms, reference + ":latest"@);
}

/// A bare tag leads to the first image that has it.
pub proof fn bare_tag_leads_to_its_image(
    ms: Seq<DescriptorModel>,
    tag: Seq<char>,
    i: int,
    stored: Seq<char>,
)
    requires
        0 <= i < ms.len(),
        oci::ref_name(ms[i]) == Some(stored),
        oci::tag_of(stored) == tag,
        forall|j: int| 0 <= j < ms.len() ==> !oci::is_named(#[trigger] ms[j], tag),
        forall|j: int| 0 <= j < i ==> !oci::matches(#[trigger] ms[j], tag),
    ensures
        canonical(ms, tag) == stored,
{
    oci::first_named_image_is_found(ms, tag, i);
}

/// The inference servers are told the model, the port and to listen on the loopback
/// address.
pub proof fn servers_are_told_the_model_and_the_port(
    model: Seq<char>,
    port: u16,
    name: Seq<char>,
)
    ensures
        llama_args(model, port).len() == 6,
        llama_args(model, port)[0] == "--model"@ && llama_args(model, port)[1] == model,
        llama_args(model, port)[2] == "--port"@ && llama_args(model, port)[3] == text::decimal(
            port as nat,
        ),
        llama_args(model, port)[4] == "--host"@ && llama_args(model, port)[5] == "127.0.0.1"@,
        vllm_args(model, port, name).len() == 8,
        vllm_args(model, port, name)[0] == "serve"@ && vllm_args(model, port, name)[1] == model,
        vllm_args(model, port, name)[2] == "--port"@ && vllm_args(model, port, name)[3]
            == text::decimal(port as nat),
        vllm_args(model, port, name)[4] == "--host"@ && vllm_args(model, port, name)[5]
            == "127.0.0.1"@,
        vllm_args(model, port, name)[6] == "--served-model-name"@ && vllm_args(model, port, name)[7]
            == name,
{
}

/// A path on an inference server is asked for at its port on the loopback address.
pub proof fn servers_are_asked_at_their_port(port: u16, path: Seq<char>)
    ensures
        local_url(port, path) == "http://127.0.0.1:"@ + text::decimal(port as nat) + path,
{
}

/// The program that `which` found is the path that it printed, without the white
/// space around it.
pub proof fn found_program_is_the_printed_path(output: Seq<u8>)
    ensures
        which_path(false, output) is None,
        text::trimmed(text::decoded(output)).len() == 0 ==> which_path(true, output) is None,
        text::trimmed(text::decoded(output)).len() > 0 ==> which_path(true, output) == Some(
            text::trimmed(text::decoded(output)),
        ),
{
}

/// The first of the well-known places at which something is is taken.
pub proof fn first_place_is_taken(there: Seq<bool>)
    requires
        there.len() == 3,
    ensures
        there[0] ==> first_place(there) == Some("/usr/local/bin/llama-server"@),
        !there[0] && there[1] ==> first_place(there) == Some("/usr/bin/llama-server"@),
        !there[0] && !there[1] && there[2] ==> first_place(there) == Some(
            "/opt/homebrew/bin/llama-server"@,
        ),
        !there[0] && !there[1] && !there[2] ==> first_place(there) is None,
        llama_places() == seq![
            "/usr/local/bin/llama-server"@,
            "/usr/bin/llama-server"@,
            "/opt/homebrew/bin/llama-server"@,
        ],
{
}

/// A request goes to the server that runs for its model, and only where none runs is
/// the model loaded.
pub proof fn running_servers_are_used<C>(
    e: Ensure,
    running: Map<Seq<char>, RunningModel<C>>,
    key: Seq<char>,
)
    requires
        ensured(e, running, key),
    ensures
        running.contains_key(key) ==> (e matches Ensure::Running(port) && port == running[key].port),
        !running.contains_key(key) ==> (e matches Ensure::Load(m) && m@ == key),
{
}

/// Requests for a stored reference mean the first image stored under it.
pub proof fn stored_reference_means_its_image(
    ms: Seq<DescriptorModel>,
    reference: Seq<char>,
    i: int,
)
    requires
        0 <= i < ms.len(),
        oci::is_named(ms[i], reference),
        forall|j: int| 0 <= j < i ==> !oci::is_named(#[trigger] ms[j], reference),
    ensures
        image_of(ms, reference) == Some(ms[i]),
{
    stored_reference_is_canonical(ms, reference, i);
    oci::first_named_image_is_found(ms, reference, i);
}

/// Without a store that can be read a reference is taken as it stands.
pub proof fn references_without_a_store(store: &OciStore, reference: Seq<char>)
    ensures
        canonical_in(None, reference) == reference,
        canonical_in(Some(store), reference) == canonical(store@.index.manifests, reference),
{
}

} // verus!
