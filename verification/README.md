# libsurfer

Decoders for audio protocols in recorded waveforms: TDM and I2S on a clocked
serial bus, and biphase-mark-coded S/PDIF and AES3. The library is written in
Rust with contracts that Verus proves.

- `src/decoders/` holds the decoders: decoded values, settings, inputs, schemas,
  the registry of decoders, and the cache of their results.
- `src/decoders/engines/` holds the two engines. `clocked_serial` reads bits on
  the edges of a bit clock; `biphase_audio` recovers the bit clock from the line,
  finds the subframes, and reads samples and channel status.
- `src/dialog.rs`, `src/headless.rs`, `src/commands.rs`, `src/cli.rs` and
  `src/gtkwave.rs` decide what the dialogs, the command line and save files lead
  to.
- `src/keymap.rs`, `src/text.rs` and `src/bits.rs` are what the rest is built on.
- `app/` is the program around the library: files, threads, windows and printing.

What holds of the engines as a whole is proved in `laws.rs`, `line_laws.rs`,
`stream_laws.rs` and the two `capture_laws.rs`:

- A capture of the clocked bus whose frames (or level-mode slots) have as many
  clock cycles as their samples take is decoded to one sample per frame and
  channel, in order, and reports no error.
- A biphase stream that is sent without jitter is decoded to exactly its
  subframes and their times, and so it is behind a line that has been idle for
  more than twelve half periods. Behind a shorter idle time of more than four half
  periods this is proved where the half period is recovered.
- A biphase stream whose transitions are up to half a half period off is decoded
  to the same subframes, at times that are as far off, where the recovered half
  period is the one on whose grid the transitions lie. That it is recovered is
  proved for streams without jitter only.
- The polarity of a biphase stream does not matter, and rows are as many as
  announced.

Three functions are trusted: `String::push` of std, `str::to_lowercase` of std,
and the comparison of two numbers of the `num` crate.
