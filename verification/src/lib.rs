//! Verified core of an offline audio-analysis engine and its agent-facing
//! tool server.
//!
//! - Reading audio: which decoder a file goes to, the sample cap, the shape
//!   guard and stream-spec bookkeeping ([`decode`]).
//! - Analysis structure: analysis-window geometry and tiling ([`frames`],
//!   [`pitch`]), onset peak picking ([`onsets`]), melody note segmentation
//!   ([`melody`]), beat-path read-back, tempo-stability windows and the
//!   cap on section boundaries ([`tempo`]), chord-run smoothing and
//!   chord runs ([`harmony`]), and the report vocabulary ([`report`]).
//! - Presenting results: the digest's timeline layout ([`digest`]),
//!   comparison verdicts and onset matching ([`compare`]), the regression
//!   harness bookkeeping ([`eval`]).
//! - The JSON-RPC tool server: JSON values ([`json`]), envelopes
//!   ([`protocol`]), dispatch ([`server`]), and the tools' argument, path
//!   and result rules ([`tools`]), with [`base64`] for inline images.
//!
//! Floating-point signal processing, file and network I/O stay with the
//! caller, which hands plain values in and takes plain values back.

pub mod text;
pub mod base64;
pub mod json;
pub mod decode;
pub mod frames;
pub mod pitch;
pub mod onsets;
pub mod melody;
pub mod tempo;
pub mod report;
pub mod harmony;
pub mod digest;
pub mod compare;
pub mod eval;
pub mod protocol;
pub mod tools;
pub mod server;
pub mod catalog;
