# FrostBuild

An incremental build engine for C, C++ and commands of other languages. The
library holds its logic and is verified with Verus; the program around it does
the reading, writing and running.

## The library

| What | Modules |
| --- | --- |
| Texts, paths, ordered maps | `text`, `paths`, `path_set`, `order`, `sorted_map`, `shared_set`, `bytes`, `literal`, `json`, `closest` |
| Manifests and workspaces | `manifest`, `raw`, `workspace`, `scaffold` |
| From a manifest to a graph of actions | `template`, `rules`, `builder`, `lower`, `toposort`, `configure`, `graph` |
| Questions to a graph | `reach`, `query`, `commands`, `completion` |
| Keys, digests and records | `action_key`, `digest`, `depfile`, `journal`, `hashcache`, `graph_store` |
| The content-addressed store | `fastcdc`, `cas` |
| Builds and what they say | `request`, `execution`, `report`, `progress`, `bench`, `doctor` |
| Running, watching, editing | `launch`, `watch`, `daemon`, `editor` |
| Imports and archives | `bazel`, `ninja`, `npm`, `jar`, `wheel` |

Each function says in its contract what it returns, over sequences of
characters, sets and maps. What relates several functions stands beside them as
a public proof function.

A few functions of other crates and of the standard library are called through
small wrappers whose contracts are not proved; the comment above each says what
it claims of the function it calls.

## The program

`app/` is ordinary Rust: the command line, files, processes, sockets, the
terminal, and what is computed in floating point.
