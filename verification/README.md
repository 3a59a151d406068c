# fluidity

Voice dictation, as a verified library with a thin program around it.

- `src/` is the library, written and proved in Verus: text clean-up and
  rewriting rules, hotkeys, audio buffering and framing, recordings, transcripts,
  history, settings, and the decisions of a dictation session.
- `tests/` runs the library on concrete inputs.
- `app/` is ordinary Rust: the command line, files, the network, windows, audio
  devices, and the arithmetic on floating-point samples.

Where the library calls `regex` or a part of the standard library that has no
specification of its own, it does so through a function or item whose contract is
stated in `src/text.rs`, `src/pattern.rs` or `src/pipeline.rs`; everything else is
proved.

Laws of the library, such as that a saved entry is found in the history or that
tidying a transcript keeps every word but the fillers, stand beside the functions
they speak of, as proof functions named `law_...` or in the functions' contracts.
