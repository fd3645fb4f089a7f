# IB 45 Coach

A local-first accountability coach for one IB Diploma student, rooted on
drive D: onboarding and subject evidence, the official TOK/EE core matrix and
a projection out of 45, a searchable resource library, an exam lab that pairs
question papers with mark schemes and grades multiple-choice papers, Google
Calendar study blocks, and AI analysis through OpenAI or a local Ollama model.

## Layout

- `src/` is the library, verified with Verus. Every function states its
  behaviour in `requires`/`ensures`, and the laws that span several functions
  (the core matrix's symmetry and bounds, what onboarding accepts, that text
  chunks rejoin to the text they were cut from, the extraction order of the library, that a
  calendar sync restarts at most once, which redirects are authorized, how
  dense an accepted answer key is, that search words stay quoted) are proof
  functions.
  - `scoring`, `profile`: core points, projections, onboarding rules.
  - `exam`: subject filter, mark-scheme pairing, answer keys, grading, PDFs.
  - `resources`: file types, metadata from paths, chunking, search queries,
    extraction order and the indexer's state.
  - `calendar`, `ai`, `store`: the decisions around Google Calendar, the AI
    providers and the encrypted store.
  - `path_safety`, `text`, `encoding`, `models`: shared pieces.
- `app/` is ordinary Rust around the library: SQLite and keyring access,
  file reading and hashing, HTTP, the indexing thread, and the scores computed
  in floating point.
- `tests/` exercises the library on concrete values.

Calls into `sha2`, `base64`, `hex`, `regex`, `url`, `quick-xml` and the
standard library's case mapping stand behind a few trusted wrappers in `src/`,
each documented with what its contract assumes. Windows paths (their drive,
file name and order) are read in `path_safety` as the standard library reads
them on Windows, so the library behaves the same on any host.
