# delta_kit

A binary-safe delta codec: `compute_delta(base, target)` produces a compact
delta and `apply_delta(base, delta)` rebuilds the target from it. The wire
format is byte-compatible with `suture-protocol`.

The library under `src/` is written in Verus and verified:

- `bytes` — little-endian fields of the wire format.
- `hashing` — the Rabin rolling hash over 2^61 - 1 and the strong hash, with
  the rolling law (a rolled hash equals the hash of the next window).
- `format` — what each encoding holds, and what applying a delta gives,
  strictly (`spec_apply`) and leniently (`spec_apply_lenient`).
- `apply` — `apply_delta` and `apply_delta_lenient`, proved equal to those
  specifications.
- `rolling` — the `0x02` rolling-hash strategy, proved equal to its scan
  specification.
- `compute` — strategy selection and the other encodings (`compute_delta`,
  `compute_binary_delta`).
- `laws` — the round trip (a computed delta applies back to its target),
  agreement of the lenient decoder with the strict one, and the size bound.
- `digest`, `compress`, `index` — the calls into `blake3`, `zstd` and
  `hashbrown`, with the contracts the proofs rely on.

`app/` holds copies of the error types with `Display` and
`std::error::Error` (via `thiserror`), and entry points that return them.
