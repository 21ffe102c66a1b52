# cabal-runtime

Bounded, deterministic projections of what tools print, and the local decisions around
them. The library under `src/` is written in Verus: every function states what it returns,
and the proofs show that it does.

| Module | What it does |
| --- | --- |
| `log` | JUnit, SARIF, nextest and plain logs as bounded diagnostics and counts |
| `observe` | Cargo's JSON messages and test output as one observation |
| `delta` | unified diffs and `git status` as bounded summaries |
| `file_cache` | what a session has read of a file, and what changed since |
| `policy` | the change policy: patches and commands are allowed, asked about or denied |
| `completion` | the completion contract, its evidence and its receipts |
| `repository_map` | the index of a repository, its refresh, its searches and its inventory |
| `causal_context` | exact searches that are captured once and shown in short |
| `hook` | the calls of tools that are run in another way, and what is shown of them |

`text`, `path`, `json`, `xml`, `digest`, `list`, `sorted`, `order` and `ranked` carry the
others. Calls into other crates stand behind functions marked
`#[verifier::external_body]`; the comment above each says what is taken on trust.

`app/` is the program around the library: files, locks, clocks, processes, arguments, and
copies of the library's types for `serde`. `tests/` runs the library on concrete values.
