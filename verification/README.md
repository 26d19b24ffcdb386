# kivio_chat

The logic of a desktop chat client, written in Verus: what it asks of a language
model, how it reads the reply, and how it keeps conversations, knowledge
libraries, memories and plans.

- `src/` is the library. Every function in it carries a contract that Verus
  proves; the laws of a module stand at its end as public proof functions whose
  names begin with `law_`.
- `src/model/` turns messages into provider requests and reads streamed replies,
  wherever their text is cut between characters.
- `src/knowledge_base/` parses documents, cuts them into chunks, checks
  embeddings and ranks what a search finds.
- `src/commands/` holds the decisions behind the client's commands: sending,
  answering, regenerating, branching, probing.
- `app/` is ordinary Rust around the library: files, SQLite, HTTP and the
  clipboard.
- `tests/` runs the library together with the crates that it calls.

A few small functions hand a value to an outside crate (base64, SHA-256, zip,
JSON, HTML entities, the clock, random ids). Each is marked
`#[verifier::external_body]`, and its doc comment says what is taken from that
crate without proof.
