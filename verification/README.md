# A2A Agent Card Skill Governor

A gateway policy that governs the `skills[]` array of an Agent-to-Agent (A2A)
Agent Card on its way back to the caller. Its rule engine, request
classification, identity extraction and card reshaping are written in Verus
and proved against their contracts.

Layout:

- `src/` — the verified library.
  - `a2a.rs`: the card model (`Skill`, `JsonValue`) and card detection.
  - `card.rs`: the response side: locating the card in a response, decoding
    and encoding its skills, governing them in place, and the fail-closed
    bodies.
  - `card_laws.rs`: proofs about the response side: a skill survives
    encoding and decoding, a governed card changes only its skills and lists
    exactly the governed ones, an empty ruleset leaves every response
    untouched, and which responses are governed, passed through or failed
    closed.
  - `detect.rs`: card-surface / binding classification of a request.
  - `generated/config.rs`: the policy configuration.
  - `governor.rs`: rule compilation, the first-match visibility gate and the
    layered skill upsert, with their specifications.
  - `policy.rs`: the A2A version signal, scope splitting, caller identity and
    the card context of a request.
  - `text.rs`: byte and character helpers.
  - `laws.rs`: proofs about several operations together: an empty
    ruleset changes nothing, the public card does not depend on the caller,
    the visibility gate is a filter, upserts keep the survivors and always
    land, and facts about glob patterns and scopes.
- `tests/` — tests of the library on concrete values.
- `app/` — the gateway side: configuration parsing, serde forms of the data,
  and the request/response filters that call the library.
