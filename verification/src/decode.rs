//! The decisions of the audio read path: which decoder a file goes to (by
//! extension, else by magic bytes), the sample cap, the shape guard every
//! decoded buffer must pass, the stream-spec bookkeeping of the FLAC and
//! lossy decoders, and the planar-to-interleaved transpose.

use vstd::prelude::*;
use crate::text::{
    ascii_lowercase, ascii_lower_seq, debug_quoted, decimal, push_debug_quoted, push_decimal, str_eq,
};

verus! {

/// Default ceiling on total decoded samples (interleaved across channels):
/// about 2.9 hours of 48 kHz stereo, so it only trips on pathological input.
pub const DEFAULT_MAX_SAMPLES: u64 = 1_000_000_000;

/// A container/codec family the read path decodes.
#[derive(Debug, Clone, Copy, PartialEq, Eq, Structural)]
pub enum AudioFormat {
    Wav,
    Flac,
    Mp3,
    Ogg,
}

/// Everything that can go wrong turning a file into decoded audio. Causes
/// from outside the library (I/O, WAV and codec failures) arrive as text.
#[derive(Debug)]
#[allow(inconsistent_fields)]
pub enum DecodeError {
    /// Couldn't open or read the file.
    Io { path: String, message: String },
    /// WAV decode failure.
    Wav(String),
    /// Probe/demux/decode failure of a FLAC, mp3 or ogg stream.
    Flac(String),
    /// The container has no audio track.
    NoAudioTrack,
    /// The FLAC stream's STREAMINFO reports no bit depth.
    UnknownBitDepth,
    /// No sample rate or channel count is declared or decoded.
    MissingStreamInfo,
    /// A decoded packet's rate or channel count disagrees with the stream's.
    InconsistentStream,
    /// A decoded buffer in a sample layout the library doesn't convert.
    UnexpectedSampleFormat,
    /// A NaN or infinite decoded sample, at this interleaved index.
    NonFiniteSample { index: usize },
    /// Neither the (lower-cased) extension nor the magic bytes name a format.
    UnsupportedExtension(String),
    /// More decoded samples than the cap allows.
    TooLong { samples: u64, limit: u64 },
    /// Zero channels, zero sample rate, or a ragged interleave.
    DegenerateShape { channels: u16, sample_rate: u32, samples: usize },
}

impl DecodeError {
    /// The text of the error, as shown to a user.
    pub open spec fn spec_message(self) -> Seq<char> {
        match self {
            DecodeError::Io { path, message } => "reading "@ + path@ + ": "@ + message@,
            DecodeError::Wav(message) => message@,
            DecodeError::Flac(message) => "decoding: "@ + message@,
            DecodeError::NoAudioTrack => "audio file has no audio track"@,
            DecodeError::UnknownBitDepth => "FLAC stream is missing its STREAMINFO bit depth"@,
            DecodeError::MissingStreamInfo => "FLAC stream is missing its STREAMINFO sample rate or channel count"@,
            DecodeError::InconsistentStream => "FLAC packet spec disagrees with the stream's STREAMINFO"@,
            DecodeError::UnexpectedSampleFormat => "decoded buffer sample format isn't one this crate converts"@,
            DecodeError::NonFiniteSample { index } => "non-finite decoded sample (NaN or infinity) at sample index "@
                + decimal(index as nat),
            DecodeError::UnsupportedExtension(ext) => "unrecognized audio file: extension "@
                + debug_quoted(ext@)
                + " and content match none of WAV, FLAC, mp3, or ogg (expected a wav/flac/mp3/ogg extension, or their magic bytes)"@,
            DecodeError::TooLong { samples, limit } => "audio is too long to analyze: "@ + decimal(
                samples as nat,
            ) + " samples exceeds the "@ + decimal(limit as nat)
                + "-sample cap (use load_with_limit to raise it for a genuinely large file)"@,
            DecodeError::DegenerateShape { channels, sample_rate, samples } =>
                "degenerate audio shape: "@ + decimal(channels as nat) + " channels, "@ + decimal(
                sample_rate as nat,
            ) + " Hz, "@ + decimal(samples as nat) + " interleaved samples"@,
        }
    }

    /// The text of the error, as shown to a user.
    pub fn message(&self) -> (r: String)
        ensures
            r@ == self.spec_message(),
    {
        match self {
            DecodeError::Io { path, message } => {
                let mut m = String::from_str("reading ");
                m.append(path.as_str());
                m.append(": ");
                m.append(message.as_str());
                m
            },
            DecodeError::Wav(message) => String::from_str(message.as_str()),
            DecodeError::Flac(message) => {
                let mut m = String::from_str("decoding: ");
                m.append(message.as_str());
                m
            },
            DecodeError::NoAudioTrack => String::from_str("audio file has no audio track"),
            DecodeError::UnknownBitDepth => String::from_str(
                "FLAC stream is missing its STREAMINFO bit depth",
            ),
            DecodeError::MissingStreamInfo => String::from_str(
                "FLAC stream is missing its STREAMINFO sample rate or channel count",
            ),
            DecodeError::InconsistentStream => String::from_str(
                "FLAC packet spec disagrees with the stream's STREAMINFO",
            ),
            DecodeError::UnexpectedSampleFormat => String::from_str(
                "decoded buffer sample format isn't one this crate converts",
            ),
            DecodeError::NonFiniteSample { index } => {
                let mut m = String::from_str(
                    "non-finite decoded sample (NaN or infinity) at sample index ",
                );
                push_decimal(&mut m, *index as u64);
                m
            },
            DecodeError::UnsupportedExtension(ext) => {
                let mut m = String::from_str("unrecognized audio file: extension ");
                push_debug_quoted(&mut m, ext.as_str());
                m.append(
                    " and content match none of WAV, FLAC, mp3, or ogg (expected a wav/flac/mp3/ogg extension, or their magic bytes)",
                );
                m
            },
            DecodeError::TooLong { samples, limit } => {
                let mut m = String::from_str("audio is too long to analyze: ");
                push_decimal(&mut m, *samples);
                m.append(" samples exceeds the ");
                push_decimal(&mut m, *limit);
                m.append(
                    "-sample cap (use load_with_limit to raise it for a genuinely large file)",
                );
                m
            },
            DecodeError::DegenerateShape { channels, sample_rate, samples } => {
                let mut m = String::from_str("degenerate audio shape: ");
                push_decimal(&mut m, *channels as u64);
                m.append(" channels, ");
                push_decimal(&mut m, *sample_rate as u64);
                m.append(" Hz, ");
                push_decimal(&mut m, *samples as u64);
                m.append(" interleaved samples");
                m
            },
        }
    }
}

/// The format an extension names, compared after ASCII lower-casing.
pub open spec fn spec_format_for(ext: Seq<char>) -> Option<AudioFormat> {
    let e = ascii_lower_seq(ext);
    if e == "wav"@ || e == "wave"@ {
        Some(AudioFormat::Wav)
    } else if e == "flac"@ {
        Some(AudioFormat::Flac)
    } else if e == "mp3"@ {
        Some(AudioFormat::Mp3)
    } else if e == "ogg"@ || e == "oga"@ {
        Some(AudioFormat::Ogg)
    } else {
        None
    }
}

/// The format a file extension names (case-insensitive): `wav`/`wave`,
/// `flac`, `mp3`, `ogg`/`oga`; `None` for anything else or no extension.
pub fn format_from_extension(ext: Option<&str>) -> (r: Option<AudioFormat>)
    ensures
        r == match ext {
            Some(e) => spec_format_for(e@),
            None => None,
        },
        ext matches Some(e) && (ascii_lower_seq(e@) == "wav"@ || ascii_lower_seq(e@) == "wave"@)
            ==> r == spec_sniff(seq![0x52u8, 0x49, 0x46, 0x46]),
        ext matches Some(e) && ascii_lower_seq(e@) == "flac"@ ==> r == spec_sniff(
            seq![0x66u8, 0x4c, 0x61, 0x43],
        ),
        ext matches Some(e) && (ascii_lower_seq(e@) == "ogg"@ || ascii_lower_seq(e@) == "oga"@)
            ==> r == spec_sniff(seq![0x4fu8, 0x67, 0x67, 0x53]),
        ext matches Some(e) && ascii_lower_seq(e@) == "mp3"@ ==> r == spec_sniff(
            seq![0x49u8, 0x44, 0x33, 0x00],
        ),
{
    if let Some(e) = ext {
        proof {
            lemma_extension_agrees_with_magic(e@, seq![0x52u8, 0x49, 0x46, 0x46]);
            lemma_extension_agrees_with_magic(e@, seq![0x66u8, 0x4c, 0x61, 0x43]);
            lemma_extension_agrees_with_magic(e@, seq![0x4fu8, 0x67, 0x67, 0x53]);
            lemma_extension_agrees_with_magic(e@, seq![0x49u8, 0x44, 0x33, 0x00]);
        }
    }
    match ext {
        None => None,
        Some(e) => {
            let lower = ascii_lowercase(e);
            let l = lower.as_str();
            if str_eq(l, "wav") || str_eq(l, "wave") {
                Some(AudioFormat::Wav)
            } else if str_eq(l, "flac") {
                Some(AudioFormat::Flac)
            } else if str_eq(l, "mp3") {
                Some(AudioFormat::Mp3)
            } else if str_eq(l, "ogg") || str_eq(l, "oga") {
                Some(AudioFormat::Ogg)
            } else {
                None
            }
        },
    }
}

/// Whether an extension names a decodable audio format (the batch file
/// filter): exactly the extensions [`format_from_extension`] recognizes.
pub fn is_audio_ext(ext: Option<&str>) -> (r: bool)
    ensures
        r == (match ext {
            Some(e) => spec_format_for(e@),
            None => None,
        } is Some),
{
    format_from_extension(ext).is_some()
}

/// The format the first four bytes identify: `RIFF` (WAV), `fLaC`, `OggS`,
/// an `ID3` tag or an MPEG frame sync (`0xFF` then three set high bits).
pub open spec fn spec_sniff(head: Seq<u8>) -> Option<AudioFormat> {
    if head.len() < 4 {
        None
    } else if head[0] == 0x52 && head[1] == 0x49 && head[2] == 0x46 && head[3] == 0x46 {
        Some(AudioFormat::Wav)
    } else if head[0] == 0x66 && head[1] == 0x4c && head[2] == 0x61 && head[3] == 0x43 {
        Some(AudioFormat::Flac)
    } else if head[0] == 0x4f && head[1] == 0x67 && head[2] == 0x67 && head[3] == 0x53 {
        Some(AudioFormat::Ogg)
    } else if head[0] == 0x49 && head[1] == 0x44 && head[2] == 0x33 {
        Some(AudioFormat::Mp3)
    } else if head[0] == 0xff && head[1] & 0xe0 == 0xe0 {
        Some(AudioFormat::Mp3)
    } else {
        None
    }
}

/// Matches the leading bytes of a file against the WAV, FLAC, Ogg and mp3
/// signatures. Fewer than four bytes is simply unrecognized.
pub fn sniff_magic(head: &[u8]) -> (r: Option<AudioFormat>)
    ensures
        r == spec_sniff(head@),
{
    if head.len() < 4 {
        return None;
    }
    let (b0, b1, b2, b3) = (head[0], head[1], head[2], head[3]);
    if b0 == 0x52 && b1 == 0x49 && b2 == 0x46 && b3 == 0x46 {
        Some(AudioFormat::Wav)
    } else if b0 == 0x66 && b1 == 0x4c && b2 == 0x61 && b3 == 0x43 {
        Some(AudioFormat::Flac)
    } else if b0 == 0x4f && b1 == 0x67 && b2 == 0x67 && b3 == 0x53 {
        Some(AudioFormat::Ogg)
    } else if b0 == 0x49 && b1 == 0x44 && b2 == 0x33 {
        Some(AudioFormat::Mp3)
    } else if b0 == 0xff && b1 & 0xe0 == 0xe0 {
        Some(AudioFormat::Mp3)
    } else {
        None
    }
}

/// The extension and the magic bytes tell the same story: for each
/// container, a file named by its extension (in any letter case) goes to the
/// same decoder that its leading signature bytes pick — `.wav`/`.wave` and
/// `RIFF`, `.flac` and `fLaC`, `.ogg`/`.oga` and `OggS`, `.mp3` and an
/// `ID3` tag or MPEG frame sync.
pub proof fn lemma_extension_agrees_with_magic(ext: Seq<char>, head: Seq<u8>)
    ensures
        ((ascii_lower_seq(ext) == "wav"@ || ascii_lower_seq(ext) == "wave"@) && head.len() >= 4
            && head[0] == 0x52 && head[1] == 0x49 && head[2] == 0x46 && head[3] == 0x46) ==> (
        spec_format_for(ext) == spec_sniff(head) && spec_sniff(head) == Some(AudioFormat::Wav)),
        (ascii_lower_seq(ext) == "flac"@ && head.len() >= 4 && head[0] == 0x66 && head[1] == 0x4c
            && head[2] == 0x61 && head[3] == 0x43) ==> (spec_format_for(ext) == spec_sniff(head)
            && spec_sniff(head) == Some(AudioFormat::Flac)),
        ((ascii_lower_seq(ext) == "ogg"@ || ascii_lower_seq(ext) == "oga"@) && head.len() >= 4
            && head[0] == 0x4f && head[1] == 0x67 && head[2] == 0x67 && head[3] == 0x53) ==> (
        spec_format_for(ext) == spec_sniff(head) && spec_sniff(head) == Some(AudioFormat::Ogg)),
        (ascii_lower_seq(ext) == "mp3"@ && head.len() >= 4 && ((head[0] == 0x49 && head[1] == 0x44
            && head[2] == 0x33) || (head[0] == 0xff && head[1] & 0xe0 == 0xe0))) ==> (
        spec_format_for(ext) == spec_sniff(head) && spec_sniff(head) == Some(AudioFormat::Mp3)),
{
    reveal_strlit("wav");
    reveal_strlit("wave");
    reveal_strlit("flac");
    reveal_strlit("mp3");
    reveal_strlit("ogg");
    reveal_strlit("oga");
    assert("flac"@ != "wav"@ && "flac"@ != "wave"@) by {
        assert("flac"@[0] != "wave"@[0]);
    }
    assert("mp3"@ != "wav"@ && "mp3"@ != "wave"@ && "mp3"@ != "flac"@) by {
        assert("mp3"@[0] != "wav"@[0]);
    }
    assert("ogg"@ != "wav"@ && "ogg"@ != "wave"@ && "ogg"@ != "flac"@ && "ogg"@ != "mp3"@) by {
        assert("ogg"@[0] != "wav"@[0]);
        assert("ogg"@[0] != "mp3"@[0]);
    }
    assert("oga"@ != "wav"@ && "oga"@ != "wave"@ && "oga"@ != "flac"@ && "oga"@ != "mp3"@) by {
        assert("oga"@[0] != "wav"@[0]);
        assert("oga"@[0] != "mp3"@[0]);
    }
}

/// Only the six audio extensions name a format: any other extension, in
/// any letter case, leaves the choice to the magic bytes.
pub proof fn lemma_other_extensions_name_no_format(ext: Seq<char>)
    requires
        ascii_lower_seq(ext) != "wav"@,
        ascii_lower_seq(ext) != "wave"@,
        ascii_lower_seq(ext) != "flac"@,
        ascii_lower_seq(ext) != "mp3"@,
        ascii_lower_seq(ext) != "ogg"@,
        ascii_lower_seq(ext) != "oga"@,
    ensures
        spec_format_for(ext) is None,
{
}

/// Letter case never matters: two extensions that agree once lower-cased
/// name the same format.
pub proof fn lemma_extension_case_insensitive(a: Seq<char>, b: Seq<char>)
    requires
        ascii_lower_seq(a) == ascii_lower_seq(b),
    ensures
        spec_format_for(a) == spec_format_for(b),
{
}

/// Dispatch: the extension decides when it names a format; otherwise the
/// sniffed magic bytes do; otherwise the file is refused, naming its
/// lower-cased extension (empty when it has none).
pub fn resolve_format(ext: Option<&str>, sniffed: Option<AudioFormat>) -> (r: Result<
    AudioFormat,
    DecodeError,
>)
    ensures
        match (ext, sniffed) {
            (Some(e), _) if spec_format_for(e@) is Some => r == Ok::<AudioFormat, DecodeError>(
                spec_format_for(e@).unwrap(),
            ),
            (_, Some(f)) => r == Ok::<AudioFormat, DecodeError>(f),
            (Some(e), None) => (r matches Err(DecodeError::UnsupportedExtension(name)) && name@
                == ascii_lower_seq(e@)),
            (None, None) => (r matches Err(DecodeError::UnsupportedExtension(name)) && name@
                == Seq::<char>::empty()),
        },
{
    if let Some(f) = format_from_extension(ext) {
        return Ok(f);
    }
    match sniffed {
        Some(f) => Ok(f),
        None => match ext {
            Some(e) => Err(DecodeError::UnsupportedExtension(ascii_lowercase(e))),
            None => Err(DecodeError::UnsupportedExtension(String::new())),
        },
    }
}

/// The sample cap: refused exactly when a cap is set and `samples` exceeds
/// it; `None` means uncapped.
pub fn check_sample_limit(samples: u64, limit: Option<u64>) -> (r: Result<(), DecodeError>)
    ensures
        match limit {
            Some(l) if samples > l => (r matches Err(DecodeError::TooLong { samples: s, limit: m })
                && s == samples && m == l),
            _ => r is Ok,
        },
{
    match limit {
        Some(l) => {
            if samples > l {
                Err(DecodeError::TooLong { samples, limit: l })
            } else {
                Ok(())
            }
        },
        None => Ok(()),
    }
}

/// Whether a decoded buffer's shape is well formed: channels and sample
/// rate non-zero, and the interleaved length a whole number of frames.
pub open spec fn spec_shape_ok(channels: u16, sample_rate: u32, samples: usize) -> bool {
    channels != 0 && sample_rate != 0 && (samples as int) % (channels as int) == 0
}

/// The single guard over every decode path's output: no zero channels, no
/// zero sample rate, no ragged interleave.
pub fn check_shape(channels: u16, sample_rate: u32, samples: usize) -> (r: Result<(), DecodeError>)
    ensures
        spec_shape_ok(channels, sample_rate, samples) ==> r is Ok,
        !spec_shape_ok(channels, sample_rate, samples) ==> (r matches Err(
            DecodeError::DegenerateShape { channels: c, sample_rate: s, samples: n },
        ) && c == channels && s == sample_rate && n == samples),
{
    if channels == 0 || sample_rate == 0 || samples % (channels as usize) != 0 {
        return Err(DecodeError::DegenerateShape { channels, sample_rate, samples });
    }
    Ok(())
}

/// The FLAC stream shape from STREAMINFO: a bit depth must be reported, and
/// both the sample rate and the channel count declared.
pub fn flac_stream_shape(
    bits_per_sample: Option<u32>,
    sample_rate: Option<u32>,
    channels: Option<u16>,
) -> (r: Result<(u32, u16), DecodeError>)
    ensures
        bits_per_sample is None ==> r matches Err(DecodeError::UnknownBitDepth),
        bits_per_sample is Some && (sample_rate is None || channels is None) ==> r matches Err(
            DecodeError::MissingStreamInfo,
        ),
        bits_per_sample is Some && sample_rate is Some && channels is Some ==> r == Ok::<
            (u32, u16),
            DecodeError,
        >((sample_rate.unwrap(), channels.unwrap())),
{
    if bits_per_sample.is_none() {
        return Err(DecodeError::UnknownBitDepth);
    }
    match (sample_rate, channels) {
        (Some(rate), Some(ch)) => Ok((rate, ch)),
        _ => Err(DecodeError::MissingStreamInfo),
    }
}

/// A FLAC packet must carry the stream's one fixed spec.
pub fn check_packet_spec(
    declared_rate: u32,
    declared_channels: u16,
    rate: u32,
    channels: u16,
) -> (r: Result<(), DecodeError>)
    ensures
        (rate == declared_rate && channels == declared_channels) ==> r is Ok,
        !(rate == declared_rate && channels == declared_channels) ==> r matches Err(
            DecodeError::InconsistentStream,
        ),
{
    if rate != declared_rate || channels != declared_channels {
        Err(DecodeError::InconsistentStream)
    } else {
        Ok(())
    }
}

/// The sample rate and channel count of a lossy stream: the header's
/// declaration, else the first decoded packet's.
#[derive(Debug, Clone, Copy)]
pub struct StreamSpec {
    pub sample_rate: Option<u32>,
    pub channels: Option<u16>,
}

impl StreamSpec {
    /// Whether both halves of the spec are known.
    pub open spec fn established(self) -> bool {
        self.sample_rate is Some && self.channels is Some
    }

    /// Starts from whatever the stream header declared.
    pub fn declared(sample_rate: Option<u32>, channels: Option<u16>) -> (s: StreamSpec)
        ensures
            s.sample_rate == sample_rate,
            s.channels == channels,
    {
        StreamSpec { sample_rate, channels }
    }

    /// The spec after one packet: adopted whole while incomplete, unchanged
    /// once established.
    pub open spec fn after_packet(self, rate: u32, channels: u16) -> StreamSpec {
        if self.established() {
            self
        } else {
            StreamSpec { sample_rate: Some(rate), channels: Some(channels) }
        }
    }

    /// The spec after a sequence of packets, each `(rate, channels)`.
    pub open spec fn after_packets(self, packets: Seq<(u32, u16)>) -> StreamSpec
        decreases packets.len(),
    {
        if packets.len() == 0 {
            self
        } else {
            self.after_packet(packets[0].0, packets[0].1).after_packets(packets.drop_first())
        }
    }

    /// Accounts for one decoded packet: while the spec is incomplete the
    /// packet's spec is adopted whole; once established, a packet that
    /// disagrees is an error and the spec is left as it was.
    pub fn accept_packet(&mut self, rate: u32, channels: u16) -> (r: Result<(), DecodeError>)
        ensures
            *final(self) == old(self).after_packet(rate, channels),
            !old(self).established() ==> r is Ok && final(self).sample_rate == Some(rate)
                && final(self).channels == Some(channels),
            old(self).established() ==> *final(self) == *old(self),
            old(self).established() && old(self).sample_rate == Some(rate) && old(self).channels
                == Some(channels) ==> r is Ok,
            old(self).established() && !(old(self).sample_rate == Some(rate) && old(
                self,
            ).channels == Some(channels)) ==> r matches Err(DecodeError::InconsistentStream),
    {
        match (self.sample_rate, self.channels) {
            (Some(r), Some(c)) => {
                if rate != r || channels != c {
                    Err(DecodeError::InconsistentStream)
                } else {
                    Ok(())
                }
            },
            _ => {
                self.sample_rate = Some(rate);
                self.channels = Some(channels);
                Ok(())
            },
        }
    }

    /// The final `(sample_rate, channels)`; a stream that neither declared
    /// nor decoded a spec has no defensible shape.
    pub fn finish(&self) -> (r: Result<(u32, u16), DecodeError>)
        ensures
            self.established() ==> r == Ok::<(u32, u16), DecodeError>(
                (self.sample_rate.unwrap(), self.channels.unwrap()),
            ),
            !self.established() ==> r matches Err(DecodeError::MissingStreamInfo),
    {
        match (self.sample_rate, self.channels) {
            (Some(r), Some(c)) => Ok((r, c)),
            _ => Err(DecodeError::MissingStreamInfo),
        }
    }
}

/// Once a lossy stream's spec is established, no sequence of packets can
/// change it; and any packet at all establishes it, with the first packet's
/// spec when the header declared none.
pub proof fn lemma_established_spec_is_fixed(s: StreamSpec, packets: Seq<(u32, u16)>)
    ensures
        s.established() ==> s.after_packets(packets) == s,
        packets.len() > 0 ==> s.after_packets(packets).established(),
        packets.len() > 0 && !s.established() ==> s.after_packets(packets) == (StreamSpec {
            sample_rate: Some(packets[0].0),
            channels: Some(packets[0].1),
        }),
    decreases packets.len(),
{
    if packets.len() > 0 {
        let next = s.after_packet(packets[0].0, packets[0].1);
        assert(next.established());
        lemma_established_spec_is_fixed(next, packets.drop_first());
    }
}

proof fn lemma_cell_before_frame(g: int, d: int, f: int, ch: int)
    requires
        0 <= g < f,
        0 <= d < ch,
    ensures
        0 <= g * ch + d < f * ch,
{
    assert(0 <= g * ch + d < f * ch) by (nonlinear_arith)
        requires
            0 <= g < f,
            0 <= d < ch,
    ;
}

/// Appends `frames` frames of planar audio in interleaved order: frame by
/// frame, channel by channel (`out[start + f * C + c] == planes[c][f]`).
pub fn interleave<T: Copy>(planes: &Vec<Vec<T>>, frames: usize, out: &mut Vec<T>)
    requires
        forall|c: int| 0 <= c < planes@.len() ==> frames <= (#[trigger] planes@[c])@.len(),
        old(out)@.len() + frames * planes@.len() <= usize::MAX,
    ensures
        final(out)@.len() == old(out)@.len() + frames * planes@.len(),
        forall|k: int| 0 <= k < old(out)@.len() ==> #[trigger] final(out)@[k] == old(out)@[k],
        forall|f: int, c: int|
            0 <= f < frames && 0 <= c < planes@.len() ==> #[trigger] final(out)@[old(out)@.len()
                + f * planes@.len() + c] == planes@[c]@[f],
{
    let channels = planes.len();
    let ghost start = out@.len();
    let ghost before = out@;
    let mut f: usize = 0;
    while f < frames
        invariant
            channels == planes@.len(),
            forall|c: int| 0 <= c < planes@.len() ==> frames <= (#[trigger] planes@[c])@.len(),
            start == old(out)@.len(),
            before == old(out)@,
            start + frames * channels <= usize::MAX,
            f <= frames,
            out@.len() == start + f * channels,
            forall|k: int| 0 <= k < start ==> #[trigger] out@[k] == before[k],
            forall|g: int, c: int|
                0 <= g < f && 0 <= c < channels ==> #[trigger] out@[start + g * channels + c]
                    == planes@[c]@[g],
        decreases frames - f,
    {
        proof {
            assert(f * channels + channels <= frames * channels) by (nonlinear_arith)
                requires
                    f < frames,
            ;
        }
        let mut c: usize = 0;
        while c < channels
            invariant
                channels == planes@.len(),
                forall|c: int| 0 <= c < planes@.len() ==> frames <= (#[trigger] planes@[c])@.len(),
                start == old(out)@.len(),
                before == old(out)@,
                start + frames * channels <= usize::MAX,
                f < frames,
                f * channels + channels <= frames * channels,
                c <= channels,
                out@.len() == start + f * channels + c,
                forall|k: int| 0 <= k < start ==> #[trigger] out@[k] == before[k],
                forall|g: int, d: int|
                    0 <= g < f && 0 <= d < channels ==> #[trigger] out@[start + g * channels + d]
                        == planes@[d]@[g],
                forall|d: int|
                    0 <= d < c ==> #[trigger] out@[start + f * channels + d] == planes@[d]@[f as int],
            decreases channels - c,
        {
            let v = planes[c][f];
            let ghost prev = out@;
            out.push(v);
            proof {
                assert forall|g: int, d: int|
                    0 <= g < f && 0 <= d < channels implies #[trigger] out@[start + g * channels
                    + d] == planes@[d]@[g] by {
                    lemma_cell_before_frame(g, d, f as int, channels as int);
                    assert(out@[start + g * channels + d] == prev[start + g * channels + d]);
                }
            }
            c += 1;
        }
        proof {
            assert forall|g: int, d: int|
                0 <= g < f + 1 && 0 <= d < channels implies #[trigger] out@[start + g * channels
                + d] == planes@[d]@[g] by {
                if g == f {
                    assert(out@[start + f * channels + d] == planes@[d]@[f as int]);
                }
            }
            assert(out@.len() == start + (f + 1) * channels) by (nonlinear_arith)
                requires
                    out@.len() == start + f * channels + channels,
            ;
        }
        f += 1;
    }
}

} // verus!
