//! The `tools/list` catalog: every tool's name, description (written for
//! an LLM caller) and input schema, in listing order. The listing names
//! exactly the tools that dispatch accepts.

use vstd::prelude::*;
use crate::json::{Json, is_string, member_is_string};
use crate::server::Tool;

verus! {

/// The tools in `tools/list` order.
pub open spec fn listing() -> Seq<Tool> {
    seq![
        Tool::RenderScore,
        Tool::ProbeAudio,
        Tool::Spectrogram,
        Tool::LintScore,
        Tool::ProbeDigest,
        Tool::ScoreReference,
        Tool::AudioDiff,
        Tool::ImportMidi,
        Tool::ExportMidi,
        Tool::TranscribeAudio,
        Tool::LoudnessTimeline,
        Tool::BeatGrid,
    ]
}

/// The description each tool is listed with.
pub open spec fn spec_description(t: Tool) -> Seq<char> {
    match t {
        Tool::RenderScore => "Render a cochlea RON score (the declarative tick/track/note/automation IR) to a deterministic WAV mix. Use this to turn a composed score into audible PCM before probing or inspecting it. Set verify=true to also run the score's embedded `verify:` assertions and get the pass/fail report back in the same call."@,
        Tool::ProbeAudio => "Extract the full feature report (integrated LUFS/true peak/LRA, onsets, YIN pitch track plus quantized melody notes, MFCC timbre digest, chroma/key, a chord timeline and per-section key (harmony), tempo with octave-alternative candidates and stability, rhythm with grid alignment and a straight-vs-triplet grid call, stereo image, structural sections, silence, clipping — schema v5) from any WAV, FLAC, mp3, or ogg file, no score needed. Use this to 'listen' to audio through numbers: check loudness targets, confirm onset timing or tempo, read back the melody you composed, or see the chord progression. Pass from_s/to_s to zoom into a time window instead of probing the whole file (report times are then relative to the cut; source.start_ms anchors them)."@,
        Tool::Spectrogram => "Render a mel spectrogram (or a tiled contact sheet covering the whole file) from a WAV, FLAC, mp3, or ogg file, for visual inspection of harmonic content, sweeps, or silence. The image comes back inline as MCP image content (base64 PNG) whenever it fits the size cap, so you can look at it directly without filesystem access; pass out_path to also (or instead) write the PNG to disk. Set annotate=true to draw what the analyzers heard onto the image — detected beats (orange ticks, top), onsets (cyan ticks, bottom), pitch segments (magenta lines) — and from_s/to_s to zoom into a time window. Use this when a numeric probe report isn't enough and you want to look at the audio."@,
        Tool::LintScore => "Statically validate a RON score against the instrument/preset catalog — catches unknown instruments or inserts, empty tracks, and other semantic problems without rendering any audio. Use this before render_score to fail fast on authoring mistakes."@,
        Tool::ProbeDigest => "The token-cheap way to listen to a WAV or FLAC file: a ~40-line deterministic text digest (duration, loudness, onsets, pitch, key, and a windowed timeline table) instead of a full JSON report or raw PCM. Reach for this first when you just need a sense of what's in a file, and only fall back to probe_audio when you need exact numbers to assert against."@,
        Tool::ScoreReference => "The score-authoring reference: the complete RON score grammar (tracks, notes, durations, automation, easing), the live instrument-preset catalog with every automatable parameter and range, all embeddable verify: assertions, and a worked example. Call this FIRST when composing — everything render_score accepts is documented here; do not guess the format."@,
        Tool::AudioDiff => "Compare two audio files (WAV, FLAC, mp3, or ogg) in feature space (loudness, onsets, pitch, key, timbre distance, per-segment RMS) rather than byte-for-byte, and report whether they are byte-identical, tier-2 equivalent (within this workspace's cross-platform tolerances), or different (naming which dimensions diverge). Set spectrogram=true to also get a signed A→B difference heat map inline (red = louder in B, blue = quieter, black = unchanged) — 'what changed' as visible structure. Use this to check whether a re-render, edit, or platform change actually altered the audio in a way that matters — a `different` verdict is a normal, successful answer, not a tool failure."@,
        Tool::ImportMidi => "Convert a Standard MIDI File (format 0 or 1) into a cochlea RON score. Timing imports exactly (SMF ticks become score ticks, tempo events become the tempo map); General MIDI programs map to rough preset families and channel-10 percussion to kick/snare/hat tracks — every mapping guess comes back in the response so you can re-voice the score afterwards. Use this to bring existing musical material into the compose→render→probe loop."@,
        Tool::ExportMidi => "Convert a cochlea RON score into a Standard MIDI File (format 1) — the inverse of import_midi. Timing exports exactly (score ticks become SMF ticks, the tempo map and time signature carry over); instruments become rough General MIDI program labels, since a synth preset isn't a GM instrument. Use this to hand a composed score to a DAW or notation tool, or to round-trip through external MIDI editing."@,
        Tool::TranscribeAudio => "Transcribe a monophonic melody from an audio file (WAV, FLAC, mp3, or ogg) into an editable cochlea RON score: pitch-track the line, read it against a tempo (detected unless bpm is given), quantize to a grid, and write the score. Every guess is reported; treat the result as a draft to re-voice. Explicit nulls read as absent."@,
        Tool::LoudnessTimeline => "The loudness-over-time curve of an audio file (WAV, FLAC, mp3, or ogg): momentary and short-term LUFS every hop_ms from the start of the file, as JSON. The dynamics view the single integrated/LRA summary can't give."@,
        Tool::BeatGrid => "The full beat grid of an audio file (WAV, FLAC, mp3, or ogg): every beat time, downbeats, tempo candidates and stability, as JSON."@,
    }
}

/// The parameters of each tool's input schema, in order.
pub open spec fn spec_parameters(t: Tool) -> Seq<Seq<char>> {
    match t {
        Tool::RenderScore => seq!["score_path"@, "out_path"@, "bits"@, "stems_dir"@, "verify"@],
        Tool::ProbeAudio => seq!["audio_path"@, "from_s"@, "to_s"@],
        Tool::Spectrogram => seq!["audio_path"@, "out_path"@, "sheet"@, "bars_per_tile"@, "annotate"@, "from_s"@, "to_s"@],
        Tool::LintScore => seq!["score_path"@],
        Tool::ProbeDigest => seq!["audio_path"@, "window_ms"@],
        Tool::ScoreReference => Seq::empty(),
        Tool::AudioDiff => seq!["audio_path_a"@, "audio_path_b"@, "window_ms"@, "json"@, "spectrogram"@],
        Tool::ImportMidi => seq!["midi_path"@, "out_path"@, "sample_rate"@],
        Tool::ExportMidi => seq!["score_path"@, "out_path"@],
        Tool::TranscribeAudio => seq!["audio_path"@, "out_path"@, "bpm"@, "grid"@, "preset"@, "track_name"@, "ppq"@],
        Tool::LoudnessTimeline => seq!["audio_path"@, "hop_ms"@],
        Tool::BeatGrid => seq!["audio_path"@],
    }
}

/// How many of a tool's parameters, from the first, are required.
pub open spec fn spec_required_count(t: Tool) -> nat {
    match t {
        Tool::RenderScore => 2,
        Tool::ProbeAudio => 1,
        Tool::Spectrogram => 1,
        Tool::LintScore => 1,
        Tool::ProbeDigest => 1,
        Tool::ScoreReference => 0,
        Tool::AudioDiff => 2,
        Tool::ImportMidi => 2,
        Tool::ExportMidi => 2,
        Tool::TranscribeAudio => 2,
        Tool::LoudnessTimeline => 1,
        Tool::BeatGrid => 1,
    }
}

/// `v` describes one parameter: an object whose first member is its
/// "type", a string.
pub open spec fn is_property(v: Json) -> bool {
    v matches Json::Object(m) && m@.len() >= 2 && m@[0].0@ == "type"@ && m@[0].1 is Str
}

/// `s` is an input schema `{"type": "object", "properties": {...},
/// "required": [...]}` whose properties are `params`, in order, and whose
/// required list names the first `required` of them.
pub open spec fn is_input_schema(s: Json, params: Seq<Seq<char>>, required: nat) -> bool {
    &&& s matches Json::Object(e)
    &&& e@.len() == 3
    &&& member_is_string(e@, 0, "type"@, "object"@)
    &&& e@[1].0@ == "properties"@
    &&& e@[2].0@ == "required"@
    &&& required <= params.len()
    &&& (e@[1].1 matches Json::Object(p) && p@.len() == params.len() && forall|k: int|
        0 <= k < params.len() ==> #[trigger] p@[k].0@ == params[k] && is_property(p@[k].1))
    &&& (e@[2].1 matches Json::Array(r) && r@.len() == required && forall|k: int|
        0 <= k < required ==> is_string(#[trigger] r@[k], params[k]))
}

/// `v` is the listing entry of `t`: `{"name": ..., "description": ...,
/// "inputSchema": ...}`.
pub open spec fn is_tool_schema(v: Json, t: Tool) -> bool {
    &&& v matches Json::Object(e)
    &&& e@.len() == 3
    &&& member_is_string(e@, 0, "name"@, t.spec_name())
    &&& member_is_string(e@, 1, "description"@, spec_description(t))
    &&& e@[2].0@ == "inputSchema"@
    &&& is_input_schema(e@[2].1, spec_parameters(t), spec_required_count(t))
}

/// One `(key, value)` member.
fn entry(key: &str, value: Json) -> (m: (String, Json))
    ensures
        m.0@ == key@,
        m.1 == value,
{
    (String::from_str(key), value)
}

/// A parameter: `name` to `{"type": ty, members...}`.
fn property(name: &str, ty: &str, members: Vec<(String, Json)>) -> (p: (String, Json))
    requires
        members@.len() >= 1,
    ensures
        p.0@ == name@,
        is_property(p.1),
{
    let mut m: Vec<(String, Json)> = Vec::new();
    m.push(entry("type", Json::text(ty)));
    let mut rest = members;
    m.append(&mut rest);
    (String::from_str(name), Json::Object(m))
}

/// A parameter with a type and a description.
fn plain(name: &str, ty: &str, description: &str) -> (p: (String, Json))
    ensures
        p.0@ == name@,
        is_property(p.1),
{
    let mut m: Vec<(String, Json)> = Vec::new();
    m.push(entry("description", Json::text(description)));
    property(name, ty, m)
}

/// A parameter with a type, a description and a default.
fn with_default(name: &str, ty: &str, description: &str, default: Json) -> (p: (String, Json))
    ensures
        p.0@ == name@,
        is_property(p.1),
{
    let mut m: Vec<(String, Json)> = Vec::new();
    m.push(entry("description", Json::text(description)));
    m.push(entry("default", default));
    property(name, ty, m)
}

/// The listing entry of `t` from its description and parameters.
fn tool_schema(t: Tool, description: &str, props: Vec<(String, Json)>, required: usize) -> (v: Json)
    requires
        description@ == spec_description(t),
        props@.len() == spec_parameters(t).len(),
        forall|k: int|
            0 <= k < props@.len() ==> #[trigger] props@[k].0@ == spec_parameters(t)[k]
                && is_property(props@[k].1),
        required == spec_required_count(t),
        required <= props@.len(),
    ensures
        is_tool_schema(v, t),
{
    let mut names: Vec<Json> = Vec::new();
    let mut k: usize = 0;
    while k < required
        invariant
            k <= required,
            required <= props@.len(),
            names@.len() == k,
            forall|j: int| 0 <= j < k ==> is_string(#[trigger] names@[j], props@[j].0@),
        decreases required - k,
    {
        names.push(Json::Str(props[k].0.clone()));
        k += 1;
    }
    let mut s: Vec<(String, Json)> = Vec::new();
    s.push(entry("type", Json::text("object")));
    s.push(entry("properties", Json::Object(props)));
    s.push(entry("required", Json::Array(names)));
    let mut e: Vec<(String, Json)> = Vec::new();
    e.push(entry("name", Json::text(t.name())));
    e.push(entry("description", Json::text(description)));
    e.push(entry("inputSchema", Json::Object(s)));
    Json::Object(e)
}

fn render_score_schema() -> (v: Json)
    ensures
        is_tool_schema(v, Tool::RenderScore),
{
    let mut p: Vec<(String, Json)> = Vec::new();
    p.push(plain("score_path", "string", "Path to a RON score file (data form version 1)."));
    p.push(plain("out_path", "string", "Where to write the rendered mix (stereo WAV)."));
    let mut m: Vec<(String, Json)> = Vec::new();
    let mut options: Vec<Json> = Vec::new();
    options.push(Json::text("float"));
    options.push(Json::text("24"));
    options.push(Json::text("16"));
    m.push(entry("enum", Json::Array(options)));
    m.push(entry("description", Json::text("PCM encoding for the WAV: 'float' (32-bit, lossless, the render's ground truth — default), '24', or '16' (integer, for a small ordinary file).")));
    m.push(entry("default", Json::text("float")));
    p.push(property("bits", "string", m));
    p.push(plain("stems_dir", "string", "Optional directory to also write one WAV per track (created if missing)."));
    p.push(with_default("verify", "boolean", "Run the score's embedded verify: assertions after rendering and include the report; the tool call reports isError:true if verification fails. Default false.", Json::Bool(false)));
    tool_schema(Tool::RenderScore, "Render a cochlea RON score (the declarative tick/track/note/automation IR) to a deterministic WAV mix. Use this to turn a composed score into audible PCM before probing or inspecting it. Set verify=true to also run the score's embedded `verify:` assertions and get the pass/fail report back in the same call.", p, 2)
}

fn probe_audio_schema() -> (v: Json)
    ensures
        is_tool_schema(v, Tool::ProbeAudio),
{
    let mut p: Vec<(String, Json)> = Vec::new();
    p.push(plain("audio_path", "string", "Path to a WAV (8/16/24/32-bit PCM or 32-bit float), FLAC, mp3, or ogg file."));
    p.push(plain("from_s", "number", "Optional: analyze only from this time (seconds into the file)."));
    p.push(plain("to_s", "number", "Optional: analyze only up to this time (seconds into the file)."));
    tool_schema(Tool::ProbeAudio, "Extract the full feature report (integrated LUFS/true peak/LRA, onsets, YIN pitch track plus quantized melody notes, MFCC timbre digest, chroma/key, a chord timeline and per-section key (harmony), tempo with octave-alternative candidates and stability, rhythm with grid alignment and a straight-vs-triplet grid call, stereo image, structural sections, silence, clipping — schema v5) from any WAV, FLAC, mp3, or ogg file, no score needed. Use this to 'listen' to audio through numbers: check loudness targets, confirm onset timing or tempo, read back the melody you composed, or see the chord progression. Pass from_s/to_s to zoom into a time window instead of probing the whole file (report times are then relative to the cut; source.start_ms anchors them).", p, 1)
}

fn spectrogram_schema() -> (v: Json)
    ensures
        is_tool_schema(v, Tool::Spectrogram),
{
    let mut p: Vec<(String, Json)> = Vec::new();
    p.push(plain("audio_path", "string", "Path to the input WAV, FLAC, mp3, or ogg."));
    p.push(plain("out_path", "string", "Optional: also write the PNG here. Required in practice only when the image exceeds the inline size cap (the call says so if that happens)."));
    p.push(with_default("sheet", "boolean", "Tile the piece into a contact sheet instead of one long strip — useful for reviewing a whole piece in one vision call. Default false. Incompatible with annotate.", Json::Bool(false)));
    p.push(with_default("bars_per_tile", "integer", "Time sections per tile when sheet is true. Default 8.", Json::integer(8)));
    p.push(with_default("annotate", "boolean", "Draw analysis overlays (beat grid, onsets, pitch) on the image. Default false.", Json::Bool(false)));
    p.push(plain("from_s", "number", "Optional: render only from this time (seconds into the file)."));
    p.push(plain("to_s", "number", "Optional: render only up to this time (seconds into the file)."));
    tool_schema(Tool::Spectrogram, "Render a mel spectrogram (or a tiled contact sheet covering the whole file) from a WAV, FLAC, mp3, or ogg file, for visual inspection of harmonic content, sweeps, or silence. The image comes back inline as MCP image content (base64 PNG) whenever it fits the size cap, so you can look at it directly without filesystem access; pass out_path to also (or instead) write the PNG to disk. Set annotate=true to draw what the analyzers heard onto the image — detected beats (orange ticks, top), onsets (cyan ticks, bottom), pitch segments (magenta lines) — and from_s/to_s to zoom into a time window. Use this when a numeric probe report isn't enough and you want to look at the audio.", p, 1)
}

fn lint_score_schema() -> (v: Json)
    ensures
        is_tool_schema(v, Tool::LintScore),
{
    let mut p: Vec<(String, Json)> = Vec::new();
    p.push(plain("score_path", "string", "Path to a RON score file."));
    tool_schema(Tool::LintScore, "Statically validate a RON score against the instrument/preset catalog — catches unknown instruments or inserts, empty tracks, and other semantic problems without rendering any audio. Use this before render_score to fail fast on authoring mistakes.", p, 1)
}

fn probe_digest_schema() -> (v: Json)
    ensures
        is_tool_schema(v, Tool::ProbeDigest),
{
    let mut p: Vec<(String, Json)> = Vec::new();
    p.push(plain("audio_path", "string", "Path to a WAV or FLAC file."));
    p.push(with_default("window_ms", "number", "Segment window length, milliseconds, for the digest's timeline rows. Default 1000.", Json::integer(1000)));
    tool_schema(Tool::ProbeDigest, "The token-cheap way to listen to a WAV or FLAC file: a ~40-line deterministic text digest (duration, loudness, onsets, pitch, key, and a windowed timeline table) instead of a full JSON report or raw PCM. Reach for this first when you just need a sense of what's in a file, and only fall back to probe_audio when you need exact numbers to assert against.", p, 1)
}

fn score_reference_schema() -> (v: Json)
    ensures
        is_tool_schema(v, Tool::ScoreReference),
{
    let mut p: Vec<(String, Json)> = Vec::new();
    tool_schema(Tool::ScoreReference, "The score-authoring reference: the complete RON score grammar (tracks, notes, durations, automation, easing), the live instrument-preset catalog with every automatable parameter and range, all embeddable verify: assertions, and a worked example. Call this FIRST when composing — everything render_score accepts is documented here; do not guess the format.", p, 0)
}

fn audio_diff_schema() -> (v: Json)
    ensures
        is_tool_schema(v, Tool::AudioDiff),
{
    let mut p: Vec<(String, Json)> = Vec::new();
    p.push(plain("audio_path_a", "string", "Path to the first audio file (WAV, FLAC, mp3, or ogg)."));
    p.push(plain("audio_path_b", "string", "Path to the second audio file (WAV, FLAC, mp3, or ogg)."));
    p.push(with_default("window_ms", "number", "Segment window length, milliseconds, for the per-segment comparison. Default 1000.", Json::integer(1000)));
    p.push(with_default("json", "boolean", "Also append the full CompareReport as pretty JSON after the text summary. Default false.", Json::Bool(false)));
    p.push(with_default("spectrogram", "boolean", "Also return the signed A→B difference spectrogram as inline image content (requires both files to share a sample rate). Default false.", Json::Bool(false)));
    tool_schema(Tool::AudioDiff, "Compare two audio files (WAV, FLAC, mp3, or ogg) in feature space (loudness, onsets, pitch, key, timbre distance, per-segment RMS) rather than byte-for-byte, and report whether they are byte-identical, tier-2 equivalent (within this workspace's cross-platform tolerances), or different (naming which dimensions diverge). Set spectrogram=true to also get a signed A→B difference heat map inline (red = louder in B, blue = quieter, black = unchanged) — 'what changed' as visible structure. Use this to check whether a re-render, edit, or platform change actually altered the audio in a way that matters — a `different` verdict is a normal, successful answer, not a tool failure.", p, 2)
}

fn import_midi_schema() -> (v: Json)
    ensures
        is_tool_schema(v, Tool::ImportMidi),
{
    let mut p: Vec<(String, Json)> = Vec::new();
    p.push(plain("midi_path", "string", "Path to a .mid/.midi file (SMF format 0 or 1, metrical division)."));
    p.push(plain("out_path", "string", "Where to write the imported RON score."));
    p.push(with_default("sample_rate", "integer", "Sample rate for the imported score (MIDI files carry none). Default 48000.", Json::integer(48000)));
    tool_schema(Tool::ImportMidi, "Convert a Standard MIDI File (format 0 or 1) into a cochlea RON score. Timing imports exactly (SMF ticks become score ticks, tempo events become the tempo map); General MIDI programs map to rough preset families and channel-10 percussion to kick/snare/hat tracks — every mapping guess comes back in the response so you can re-voice the score afterwards. Use this to bring existing musical material into the compose→render→probe loop.", p, 2)
}

fn export_midi_schema() -> (v: Json)
    ensures
        is_tool_schema(v, Tool::ExportMidi),
{
    let mut p: Vec<(String, Json)> = Vec::new();
    p.push(plain("score_path", "string", "Path to a RON score file (data form version 1)."));
    p.push(plain("out_path", "string", "Where to write the Standard MIDI File (.mid)."));
    tool_schema(Tool::ExportMidi, "Convert a cochlea RON score into a Standard MIDI File (format 1) — the inverse of import_midi. Timing exports exactly (score ticks become SMF ticks, the tempo map and time signature carry over); instruments become rough General MIDI program labels, since a synth preset isn't a GM instrument. Use this to hand a composed score to a DAW or notation tool, or to round-trip through external MIDI editing.", p, 2)
}

fn transcribe_audio_schema() -> (v: Json)
    ensures
        is_tool_schema(v, Tool::TranscribeAudio),
{
    let mut p: Vec<(String, Json)> = Vec::new();
    p.push(plain("audio_path", "string", "Path to the input WAV, FLAC, mp3, or ogg."));
    p.push(plain("out_path", "string", "Where to write the transcribed RON score."));
    p.push(plain("bpm", "number", "Tempo to notate against. Detected from the audio when omitted."));
    p.push(with_default("grid", "string", "Quantization grid as a note duration (1/16, 1/8, 1/4, 1/8t...), or none to keep raw timing. Default 1/16.", Json::text("1/16")));
    p.push(with_default("preset", "string", "Instrument preset for the transcribed track. Default sine.", Json::text("sine")));
    p.push(with_default("track_name", "string", "Track name in the written score. Default lead.", Json::text("lead")));
    p.push(with_default("ppq", "integer", "Tick resolution of the written score. Default 960.", Json::integer(960)));
    tool_schema(Tool::TranscribeAudio, "Transcribe a monophonic melody from an audio file (WAV, FLAC, mp3, or ogg) into an editable cochlea RON score: pitch-track the line, read it against a tempo (detected unless bpm is given), quantize to a grid, and write the score. Every guess is reported; treat the result as a draft to re-voice. Explicit nulls read as absent.", p, 2)
}

fn loudness_timeline_schema() -> (v: Json)
    ensures
        is_tool_schema(v, Tool::LoudnessTimeline),
{
    let mut p: Vec<(String, Json)> = Vec::new();
    p.push(plain("audio_path", "string", "Path to the input WAV, FLAC, mp3, or ogg."));
    p.push(with_default("hop_ms", "number", "Spacing of the curve's points, milliseconds (at least 1). Default 100.", Json::integer(100)));
    tool_schema(Tool::LoudnessTimeline, "The loudness-over-time curve of an audio file (WAV, FLAC, mp3, or ogg): momentary and short-term LUFS every hop_ms from the start of the file, as JSON. The dynamics view the single integrated/LRA summary can't give.", p, 1)
}

fn beat_grid_schema() -> (v: Json)
    ensures
        is_tool_schema(v, Tool::BeatGrid),
{
    let mut p: Vec<(String, Json)> = Vec::new();
    p.push(plain("audio_path", "string", "Path to the input WAV, FLAC, mp3, or ogg."));
    tool_schema(Tool::BeatGrid, "The full beat grid of an audio file (WAV, FLAC, mp3, or ogg): every beat time, downbeats, tempo candidates and stability, as JSON.", p, 1)
}

/// Every tool's listing entry, in `tools/list` order.
pub fn tool_schemas() -> (r: Vec<Json>)
    ensures
        r@.len() == listing().len(),
        forall|i: int| 0 <= i < listing().len() ==> is_tool_schema(#[trigger] r@[i], listing()[i]),
{
    let mut r: Vec<Json> = Vec::new();
    r.push(render_score_schema());
    r.push(probe_audio_schema());
    r.push(spectrogram_schema());
    r.push(lint_score_schema());
    r.push(probe_digest_schema());
    r.push(score_reference_schema());
    r.push(audio_diff_schema());
    r.push(import_midi_schema());
    r.push(export_midi_schema());
    r.push(transcribe_audio_schema());
    r.push(loudness_timeline_schema());
    r.push(beat_grid_schema());
    r
}

/// The listing covers every tool that dispatch accepts.
pub proof fn lemma_every_tool_is_listed(t: Tool)
    ensures
        exists|i: int| 0 <= i < listing().len() && listing()[i] == t,
{
    match t {
        Tool::RenderScore => assert(listing()[0] == t),
        Tool::ProbeAudio => assert(listing()[1] == t),
        Tool::Spectrogram => assert(listing()[2] == t),
        Tool::LintScore => assert(listing()[3] == t),
        Tool::ProbeDigest => assert(listing()[4] == t),
        Tool::ScoreReference => assert(listing()[5] == t),
        Tool::AudioDiff => assert(listing()[6] == t),
        Tool::ImportMidi => assert(listing()[7] == t),
        Tool::ExportMidi => assert(listing()[8] == t),
        Tool::TranscribeAudio => assert(listing()[9] == t),
        Tool::LoudnessTimeline => assert(listing()[10] == t),
        Tool::BeatGrid => assert(listing()[11] == t),
    }
}

} // verus!
