# terminal

The terminal-side logic of a multi-tab terminal, verified with Verus:
selection over the visible grid and its word, line and bracket searches,
vi-mode motions, the OSC 133 prompt sniffer and the session actions its
marks call for, ConPTY resize-echo realignment, regex search corpora, UTF-8
validation, paste payloads, the PTY input write queue and the pacing of
render-frame captures.

- `src/` is the verified library. Each public function states its result
  in `ensures` over spec functions; the `lemma_*` proof functions state the
  laws that span several calls.
- `tests/` runs the library on concrete inputs.
- `app/` holds what the library leaves to its host: `Display`/`Error` for
  the error types, the write loop over an asynchronous PTY writer, the
  per-read loop that hands the sniffer's segments and marks to a VT engine
  in stream order, range conversion and a cached literal search pattern.

Calls into `regex`, `memchr` and `simdutf` stand behind small wrappers
marked `#[verifier::external_body]`; their contracts are the assumptions the
proofs rest on.
