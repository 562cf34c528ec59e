# assay

The decisions and parsers of the `assay` scripting runtime, written in
Verus: each public function states what it returns in its contract (where
the result rests on chance, what holds of every draw; where it rests on an
outside crate, that crate's result by name), and the laws that span several
functions are proof functions named `law_*`.

## Layout

- `src/` — the verified library, one module per concern:
  - `text` — character-level helpers and their specifications (trim, case,
    lines, words, splitting, decimal numbers, text order).
  - `glob`, `policy`, `credential` — the request policy: host and path
    patterns, rule matching and classification, credential placeholders.
  - `gates`, `modes`, `operation` — read-only and approval gating, the
    execution mode, and the digest that binds an approval to one call.
  - `redact` — a JSON document model and the redaction of secret members.
  - `dns_wire`, `dns` — DNS messages on the wire, resolver configuration,
    DNS blacklist replies.
  - `smtp`, `smtp_probe` — SMTP replies and the recipient probe as a state
    machine that never sends `DATA`.
  - `crypto` — hash selection, HMAC (RFC 2104), hex, uniformly drawn
    random tokens, and reading a JWT's segments without checking its
    signature (signing and verifying tokens is not part of this library).
  - `sse` — server-sent events: writing, cutting a stream, reading back.
  - `http_client`, `http_response`, `download` — what a script's HTTP call
    sends, the head of the response a handler returns, and the size cap
    and temporary file of a download.
  - `ws_session`, `serve` — a WebSocket connection's reads, writes and
    close, and the answers `http.serve` makes itself (404, 500, the
    handshake, query parameters).
  - `process` — the checks of `process.kill` and the report of
    `process.wait`.
  - `yaml` — YAML nodes to and from documents, with tags wrapped, stripped
    or restored.
  - `oci` — the config and manifest edits of an appended image layer.
  - `mcp` — the Model Context Protocol server's answers.
  - `os_date` — Unix time to calendar date and `strftime`-like formatting.
  - `cgroup`, `apt`, `systemd`, `machinectl`, `install`, `lua_vm`,
    `builtins`, `cli`, `api` — parsers and decisions of the builtins and
    the command line.
- `tests/` — tests of the library on concrete values.
- `app/` — the `assay` command: files, sockets, standard input and output,
  JSON text through serde, around the library.

Outside crates are called through small trusted wrappers whose doc
comments say what they are believed to do: `url` (URL parts), `sha2`,
`sha3`, `sha1` (digests), `data-encoding` (base64), `rand` (the
operating system's random source, which may fail) and a few functions of
`std`.
