# kitchensink

The core of a browser-first knowledge-graph workspace: one assistant, a graph
of documents, images, URLs and topics, and imported files whose text is
extracted and indexed. The library is written in Verus: Verus verifies all
of `src/`, and its public functions state what they return in contracts.

## Layout

- `src/text.rs`, `src/order.rs`, `src/numbers.rs`: characters, trimming,
  splitting and joining; the lexicographic order of texts; decimal numbers.
- `src/extract.rs`: whitespace cleaning, text of HTML and PDF documents,
  summaries.
- `src/documents.rs`: node identifiers (slugs), record keys, document markup,
  HTML escaping and the node references that documents make.
- `src/urls.rs`: the parts of a parsed URL that the workspace reads.
- `src/config.rs`: the server configuration, read from environment pairs.
- `src/models.rs`: stored records, their identifiers and the response shapes.
- `src/model.rs`: the chat-completion request that describes an image, and
  the text of its reply.
- `src/routes.rs`: the decisions of the HTTP API (origins, sessions, imports,
  node fields, chat turns).
- `src/agent.rs`: the assistant's tools, policy and transcript texts.
- `src/db.rs`, `src/storage.rs`: which database credentials and which asset
  store the configuration selects.
- `app/`: the server around the library (HTTP routes, database queries,
  object storage, the agent runtime). It is ordinary Rust and is not verified.
- `tests/`: tests of the library on concrete values.

Calls into outside crates (`scraper`, `url`, `mime_guess`, `base64`,
`chrono`, `uuid`) go through small trusted wrappers whose contracts say what
the library relies on; each says in its doc comment what is claimed. PDFs
are read in `app/`, where a panic of the reader can be caught; the library
decides what the reading means for the asset.
