# atomartist-ui

The platform-agnostic logic of the AtomArtist UI, verified with Verus.

- `src/` is the library. Every function there carries a `requires` /
  `ensures` contract that Verus proves; the laws of the library (what a
  sequence of calls promises) are public proof functions beside the code
  they speak of, for instance `settings_round_trip::lemma_settings_round_trip`
  (the settings text reads back as the record it was written from) or
  `thumb_cache::lemma_finished_answer_is_kept`.
- The few calls into other crates (PNG encoding and decoding, Unicode
  lowercasing, `Arc` handles) sit behind small trusted wrappers whose doc
  comments say what is assumed of them.
- `app/` is the shell-side half: the floating-point rasterizer and icon
  resampling, widget-to-framebuffer mapping, process-wide caches, and the
  stderr record of notices. It drives the library and is not verified.
- `tests/` exercises the library on concrete values.

Widget painting and layout, which work in floating point against the GUI
toolkit, are left to the shell; their decisions (what a press, a key or a
pointer move does, when a dialog opens and closes, what is requested next)
are state machines in the library.
