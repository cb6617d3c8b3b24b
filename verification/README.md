# cochlea

A headless audio engine for agents: decode audio, "listen through numbers"
(loudness, onsets, pitch, key, a windowed timeline, comparisons), and serve
those tools to agents over the Model Context Protocol.

## Layout

- `src/` — the verified library (Verus). Every decision of the read path,
  the analyzers' integer structure (window geometry, peak picking, run
  grouping, beat read-back, section-boundary capping, chord smoothing), the digest layout, comparison
  verdicts, base64, the JSON-RPC tool server's dispatch and path rules and its
  `tools/list` catalog,
  each with a contract; the laws of the library are proof functions beside
  the code they speak of.
- `tests/` — tests of the library's public API on concrete values.
- `app/` — the `cochlea-mcp` stdio server around the library: line framing,
  JSON text through `serde_json`, file reading through `hound` and
  `symphonia`, path canonicalization, and the floating-point signal
  processing (STFT via `rustfft`, EBU R128 via `ebur128`, YIN, key, tempo,
  rhythm, stereo image, self-similarity novelty, chord templates, MFCCs).

The score, render, synth, verify and spectrogram engines are not part of
this build: their tools check arguments and paths and then say so.

Only the MCP server is built here. The `cochlea` command-line binary
(`render`, `probe`, `diff`, `eval`, `spectro`, `lint`, `import`, `export`,
`transcribe`) and the Python bindings are not: the library keeps the
decisions its `eval` and `diff` commands make (`eval`, `compare`), but no
binary in this build runs them.
