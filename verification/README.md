# muna

Client library for the Muna prediction platform, written in Verus.

- `src/` is the verified library: data types and their wire codes, tag and
  date handling, predictor metadata (which parameter receives which input),
  chat completion merging, Anthropic message events, remote value encoding,
  prediction caching decisions, transfer planning (download ranges, multipart
  uploads, retries) and server-sent event parsing. Each public function has a
  contract; the laws that relate several functions are public proof
  functions (`lemma_*`).
- `tests/` runs the library on concrete values.
- `app/` is the client around it: HTTP, files, the native runtime's C API,
  async services and the serde forms of the library's types.

Calls into outside crates made by the library (`base64`, `url`,
`serde_json`) go through small trusted wrappers whose doc comments say what
their contracts claim.
