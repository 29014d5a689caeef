# llmman

Manage and serve large language models that are kept as images in an
[OCI Image Layout](https://github.com/opencontainers/image-spec/blob/main/image-layout.md).
`llmman serve` offers Ollama-, OpenAI- and Anthropic-compatible HTTP APIs on
`127.0.0.1:17434`, backed by `llama-server` and `vllm` processes.

The logic is a library that is verified with [Verus](https://github.com/verus-lang/verus):
its public functions state what they return or change, and Verus proves it.  The
exceptions are small functions around calls into other crates and parts of the
standard library: what these state is believed, and their comments say what that
is; of the clock nothing is stated.  The program in `app/`, which reads and writes
files and talks to the network, is not verified.

| Place | Contents |
|-------|----------|
| `src/storage/` | the store: index, references, blobs, building images |
| `src/shortnames.rs` | short names for references |
| `src/archive.rs`, `src/hash.rs`, `src/json.rs`, `src/clock.rs` | the outside crates that the logic calls, and what is claimed of them |
| `src/text.rs`, `src/paths.rs`, `src/string_map.rs` | texts, paths, maps |
| `src/cmd/` | the commands |
| `src/cmd/readline.rs` | reading a line from a terminal in raw mode |
| `src/cmd/serve/` | the server: requests, streams, models, processes |
| `tests/` | tests of the library |
| `app/` | the program around it: command line, files, network, terminal |

What holds of several functions together stands beside them as public proof
functions, for example that a tagged image is found
(`storage::oci::tagged_image_is_found`), that it makes no difference in which
pieces a stream comes in (`cmd::serve::lines::pieces_make_no_difference`), or that
a reference without a tag reaches the process of the image with the tag `latest`
(`cmd::serve::manager::untagged_means_latest`).

## The client of the Anthropic API

`llmman launch` starts coding assistants against the local server.  Seven of them
are built in.  The eighth, first in the list, is the client of the Anthropic API;
`llmman/integrations.conf` in the configuration directory of the user says which
program that is:

```toml
[anthropic]
name = "acme"
description = "Acme Agent"
binary = "acme-agent"
install_hint = "https://acme.example"
```
