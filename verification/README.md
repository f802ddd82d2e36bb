# aisearch_emulator

A local, HTTP-compatible emulator of a search service, verified with Verus.

- `src/` is the library. Its functions are proved against the contracts that they
  state. The exceptions are the wrappers round calls into other crates and the
  standard library, marked `external_body` or stated by `assume_specification`: their
  contracts are believed, and their doc comments name the function called.

  `text`, `json`, `encoding` and `sorting` are the ground; `storage` holds index
  definitions and documents; `filter` reads and evaluates filter expressions; `query`
  analyzes text and searches the full-text index; `semantic` selects answers and
  captions; `service` ties them together; `api` reads requests and builds responses.
  `service::laws` and `service::agreement` state what holds of the service as a whole.
- `app/` is the program around it: the HTTP server, the configuration from the
  environment, and what works on floating-point numbers.
- `tests/` runs the library with the crates that it depends on.

Floating-point numbers (JSON numbers, scores, weights) are held by their rank: the
64-bit integer by which `tantivy` orders them.
