# gen3d_ai

The logic behind Gen3D's AI build pipeline, written in Verus: every function in
`src/` carries a contract, and Verus proves the code against it.

## Layout

- `src/text.rs` — text primitives the rest is stated over: trimming, lower-casing,
  lines and words, prefixes, decimal digits, a total order on texts and a verified
  sort that removes duplicates.
- `src/json.rs` — a JSON value type and its mathematical view (objects as maps, the
  last entry of a key winning).
- `src/parse/` — reading model replies: locating JSON objects in free text, the
  repairs applied to plan, review-delta and motion-authoring documents, the
  version checks and tidying of every document kind, token and tag normalisation,
  and the sanitising of articulation nodes.
- `src/openai/` — the request layer: errors and their classification, reasoning
  effort caps, the capability cache, the request bodies for `/responses` and
  `/chat/completions`, the retry and fallback state machine, curl timeouts,
  response readers, base64, and the decisions of the offline `mock://gen3d`
  provider.
- `src/pipeline/` — the per-frame decisions of a build job (budget stops,
  speed-mode changes, the review-capture phase, failing and finishing a run, the
  queue of component requests with its retries, the handling of plan and review
  replies, replans and the regeneration budget), plan hashing (SHA-256 through
  the `sha2` crate), progress text, tooling feedback fields and the sprite-sheet
  layout.
- `src/motion.rs` — the enums of the motion tooling and the checks of a
  recenter request's arguments.
- `tests/` — executable tests of the library.
- `app/` — ordinary Rust around the library: files, processes, serde round trips,
  image encoding, the sequence of a text request, and the mock provider's canned
  replies, which carry floating-point values.
