//! The probe report's discrete vocabulary: pitch classes, modes, the
//! clipping summary, and MIDI note naming.

use vstd::prelude::*;
use crate::text::{push_signed_decimal, signed_decimal};

verus! {

/// A pitch class, printed as its note name (`"C"`, `"C#"`, ...).
#[derive(Debug, Clone, Copy, PartialEq, Eq)]
pub enum PitchClass {
    C,
    CSharp,
    D,
    DSharp,
    E,
    F,
    FSharp,
    G,
    GSharp,
    A,
    ASharp,
    B,
}

/// Major or minor.
#[derive(Debug, Clone, Copy, PartialEq, Eq)]
pub enum Mode {
    Major,
    Minor,
}

/// Sample-clamp clipping: the count of interleaved samples at or beyond
/// full scale, and whether the true peak exceeded 0 dBTP.
#[derive(Debug, Clone, Copy)]
pub struct ClippingReport {
    pub clipped_samples: usize,
    pub true_peak_over_0dbtp: bool,
}

impl PitchClass {
    /// Semitones above C (the chroma bin): `C` is 0, `B` is 11.
    pub open spec fn semitone(self) -> nat {
        match self {
            PitchClass::C => 0,
            PitchClass::CSharp => 1,
            PitchClass::D => 2,
            PitchClass::DSharp => 3,
            PitchClass::E => 4,
            PitchClass::F => 5,
            PitchClass::FSharp => 6,
            PitchClass::G => 7,
            PitchClass::GSharp => 8,
            PitchClass::A => 9,
            PitchClass::ASharp => 10,
            PitchClass::B => 11,
        }
    }

    /// The note name, sharps spelled with `#`.
    pub open spec fn spec_name(self) -> Seq<char> {
        match self {
            PitchClass::C => "C"@,
            PitchClass::CSharp => "C#"@,
            PitchClass::D => "D"@,
            PitchClass::DSharp => "D#"@,
            PitchClass::E => "E"@,
            PitchClass::F => "F"@,
            PitchClass::FSharp => "F#"@,
            PitchClass::G => "G"@,
            PitchClass::GSharp => "G#"@,
            PitchClass::A => "A"@,
            PitchClass::ASharp => "A#"@,
            PitchClass::B => "B"@,
        }
    }

    /// The pitch class `i` semitones above C (chroma bin `i`).
    pub fn from_semitone(i: usize) -> (p: PitchClass)
        requires
            i < 12,
        ensures
            p.semitone() == i,
    {
        match i {
            0 => PitchClass::C,
            1 => PitchClass::CSharp,
            2 => PitchClass::D,
            3 => PitchClass::DSharp,
            4 => PitchClass::E,
            5 => PitchClass::F,
            6 => PitchClass::FSharp,
            7 => PitchClass::G,
            8 => PitchClass::GSharp,
            9 => PitchClass::A,
            10 => PitchClass::ASharp,
            _ => PitchClass::B,
        }
    }

    /// Note name as printed in digests and comparisons.
    pub fn name(self) -> (r: &'static str)
        ensures
            r@ == self.spec_name(),
    {
        match self {
            PitchClass::C => "C",
            PitchClass::CSharp => "C#",
            PitchClass::D => "D",
            PitchClass::DSharp => "D#",
            PitchClass::E => "E",
            PitchClass::F => "F",
            PitchClass::FSharp => "F#",
            PitchClass::G => "G",
            PitchClass::GSharp => "G#",
            PitchClass::A => "A",
            PitchClass::ASharp => "A#",
            PitchClass::B => "B",
        }
    }
}

/// Distinct pitch classes have distinct semitones: the chroma-bin numbering
/// is a bijection onto `0..12`.
pub proof fn lemma_semitone_injective(a: PitchClass, b: PitchClass)
    ensures
        a.semitone() < 12,
        a.semitone() == b.semitone() ==> a == b,
{
}

/// The digest/compare spelling of a mode.
pub open spec fn spec_mode_name(mode: Mode) -> Seq<char> {
    match mode {
        Mode::Major => "major"@,
        Mode::Minor => "minor"@,
    }
}

/// The digest/compare spelling of a mode: `"major"` or `"minor"`.
pub fn mode_name(mode: Mode) -> (r: &'static str)
    ensures
        r@ == spec_mode_name(mode),
{
    match mode {
        Mode::Major => "major",
        Mode::Minor => "minor",
    }
}

/// The pitch class of a MIDI note number (Euclidean remainder mod 12).
pub open spec fn midi_pitch_class(midi: int) -> nat {
    (midi % 12) as nat
}

/// MIDI octave numbering: middle C (60) is octave 4.
pub open spec fn midi_octave(midi: int) -> int {
    midi / 12 - 1
}

/// Note name plus octave, e.g. `"C4"` for 60 or `"A#-1"` for 10.
pub open spec fn spec_note_name(midi: int) -> Seq<char> {
    pitch_class_name(midi_pitch_class(midi)) + signed_decimal(midi_octave(midi))
}

/// The note name of chroma bin `i`.
pub open spec fn pitch_class_name(i: nat) -> Seq<char> {
    if i == 0 {
        "C"@
    } else if i == 1 {
        "C#"@
    } else if i == 2 {
        "D"@
    } else if i == 3 {
        "D#"@
    } else if i == 4 {
        "E"@
    } else if i == 5 {
        "F"@
    } else if i == 6 {
        "F#"@
    } else if i == 7 {
        "G"@
    } else if i == 8 {
        "G#"@
    } else if i == 9 {
        "A"@
    } else if i == 10 {
        "A#"@
    } else {
        "B"@
    }
}

/// Note name + octave for a MIDI note number (`60` -> `"C4"`), MIDI's
/// standard numbering where middle C is C4.
pub fn note_name(midi: i32) -> (r: String)
    ensures
        r@ == spec_note_name(midi as int),
{
    let rem = midi % 12;
    let pc: i32 = if rem < 0 { rem + 12 } else { rem };
    let whole: i64 = midi as i64 - pc as i64;
    let octave: i64 = whole / 12 - 1;
    let class = PitchClass::from_semitone(pc as usize);
    assert(pc as int == (midi as int) % 12);
    assert(octave as int == (midi as int) / 12 - 1);
    let mut out = String::new();
    out.append(class.name());
    push_signed_decimal(&mut out, octave);
    assert(class.spec_name() == pitch_class_name(pc as nat));
    out
}

} // verus!
