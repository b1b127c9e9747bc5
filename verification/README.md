# simple_core

The rules of a personal workspace service, verified with Verus: what a search, a read,
a write, an upload, a checkpoint or an evaluation import means, when it is refused, and
what is answered.

- `src/` is the library. Every function states in its contract what it returns, over
  mathematical models of the values; what holds of several operations together is stated
  in public proof functions next to them. Calls into other crates stand in `outside.rs`,
  and the properties of characters that come from the standard library in `text.rs`.
- `app/` is the HTTP service around it: it runs queries, stores objects and sends
  responses, and asks the library what to do.
- `tests/` runs the library on examples.

Identities are 128-bit numbers, times are microseconds since the epoch, and scores are
binary64 numbers, each by an integer that stands for it. What other services know
(whether a document is a task, which documents are superseded, how a document is cut into
chunks) is handed to the library as plain values.

| Modules | About |
| --- | --- |
| `lexical`, `wording`, `verbatim`, `lanes`, `score`, `candidate`, `budget`, `render`, `search` | searching |
| `paths`, `links`, `read`, `listing`, `files` | finding, reading and listing entries |
| `write`, `upsert`, `history`, `binary`, `auth` | writing documents and files |
| `checkpoint`, `sources`, `receipts`, `resume`, `deltas`, `open` | checkpoints, and going on from one |
| `evaluation` | workspaces for evaluations |
| `envelope`, `error`, `json`, `requests` | what goes in and out |
| `text`, `order`, `seqs`, `outside` | texts, sorting, sequences, other crates |
