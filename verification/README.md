# tfm2_atlas

The rules behind the Atlas tier dashboard, the draft assistant and the career editor for
TFM2, written in Verus. The functions of `src/` are proved against their contracts; where a
result rests on something outside the library (a JSON lookup, LZ4, an atomic exchange with
other threads), the contract says what holds of every outcome. The claiming of a queued
request is one atomic update whose step (`claim_step`) is verified; what the atomic holds is
not stated, because std atomics carry no value that Verus can speak of.

## Layout

- `src/` is the verified library.
  - `profile`, `tsv`, `locks`: analytics profiles, tier labels and the tier TSV layout, lock
    groups and lock keys.
  - `index`, `match_index`, `selection`, `indexing`: the replay vocabulary and its compressed
    cache, the index of replay facts kept in key order, which matches and patches a profile
    selects, and the bookkeeping of background indexing.
  - `draft`, `mock_draft`, `recommend`: role assignments and the role check, the mock draft
    session with its undo history, and the decisions behind a recommendation (candidate pool,
    projected lineups, notes, opponent list, tier rows).
  - `api`, `protocol`, `requests`, `runtime`, `schema`: the bridge commands and their
    surfaces, length-prefixed frames, request claiming (a verified step applied by one atomic update), the published dashboard state, and the
    record schema preflight.
  - `editor`, `mastery`, `overview`: the checks on player and staff edits, recruitment
    overrides, the mastery listing and its payload check, and the editor's overview lists.
  - `wire`, `catalog`: the line protocol between the game client and the companion (tier
    sync, active champion catalog, hex encoding), with its round-trip laws.
  - `text`, `ordered`: strings, decimal numbers and the order of `str`.
- `tests/` runs the library on concrete values.
- `app/` holds what computes with floating-point numbers (tier scores, analytics rates, draft
  scores, JSON record patches) and the serde forms of the library's types.
