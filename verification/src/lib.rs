//! Chord identification and voicing generation for fretted instruments.

use vstd::prelude::*;

pub mod text;
pub mod bits;
pub mod notes;
pub mod parse;
pub mod symbol;
pub mod formula;
pub mod identify;
pub mod voicing;
pub mod scoring;
pub mod request;

pub use formula::{analyze_symbol, ChordFormula, ChordTone, IntervalName};
pub use identify::{
    identify, identify_fingering, identify_fingering_with_tuning, identify_with_tuning,
    AnalysisClass, ChordAnalysis, Confidence, IdentifyResult, InferredOmission,
};
pub use notes::{
    standard_7_string_tuning, standard_8_string_tuning, standard_tuning, standard_ukulele_tuning,
    Fingering, GuitarTuning, Instrument, NoteLetter, NoteName, PitchClass, PlayedNote, Tuning,
    UkuleleTuning,
};
pub use scoring::{estimated_finger_count, rank_diverse_voicing_candidates, VoicingScoreBreakdown};
pub use symbol::{Alteration, ChordSpec, ChordSymbol, Extension, Quality, Seventh};
pub use voicing::{
    voicing_score_breakdown_with_tuning, voicings, voicings_with_tuning, Voicing, VoicingCandidate,
    VoicingMode, VoicingOptions, VoicingScoreContext,
};

verus! {

pub const GUITAR_STRING_COUNT: usize = 6;
pub const GUITAR7_STRING_COUNT: usize = 7;
pub const GUITAR8_STRING_COUNT: usize = 8;
pub const UKULELE_STRING_COUNT: usize = 4;
pub const STRING_COUNT: usize = 6;
pub const MAX_STRING_COUNT: usize = 8;
pub const DEFAULT_MIN_FRET: u8 = 0;
pub const DEFAULT_MAX_FRET: u8 = 12;
pub const DEFAULT_MAX_SPAN: u8 = 4;
pub const DEFAULT_LIMIT: usize = 15;
pub const MAX_LIMIT: usize = 1000;
pub const MAX_STANDARD_FRET: u8 = 30;
pub const MAX_ALL_VOICINGS: usize = 25000;
pub const MAX_NOTE_ACCIDENTALS: u8 = 2;
pub const MAX_DIVERSITY_SCORE_WINDOW: u32 = 12;

/// What kind of failure an error reports.
#[derive(Copy, Clone, Debug, PartialEq, Eq, Structural)]
pub enum ChordClawErrorKind {
    Data,
    Usage,
    Internal,
}

impl ChordClawErrorKind {
    /// Process exit status for errors of this kind: 65 for bad data, 2 for
    /// bad usage, 1 for internal failures.
    pub fn exit_code(self) -> (c: u8)
        ensures
            c == match self {
                ChordClawErrorKind::Data => 65u8,
                ChordClawErrorKind::Usage => 2u8,
                ChordClawErrorKind::Internal => 1u8,
            },
    {
        match self {
            ChordClawErrorKind::Data => 65,
            ChordClawErrorKind::Usage => 2,
            ChordClawErrorKind::Internal => 1,
        }
    }
}

/// An error with a kind and a human-readable message.
#[derive(Clone, Debug, PartialEq, Eq)]
pub struct ChordClawError {
    kind: ChordClawErrorKind,
    message: String,
}

/// The library's error type under a second name.
pub type ChordsmithError = ChordClawError;

impl ChordClawError {
    /// A data error carrying `message`.
    pub fn new(message: String) -> (e: Self)
        ensures
            e.spec_kind() == ChordClawErrorKind::Data,
            e.spec_message() == message@,
    {
        Self::with_kind(ChordClawErrorKind::Data, message)
    }

    /// A data error whose message is the given characters.
    pub fn from_chars(message: &Vec<char>) -> (e: Self)
        ensures
            e.spec_kind() == ChordClawErrorKind::Data,
            e.spec_message() == message@,
    {
        Self::new(text::chars_to_string(message))
    }

    /// An error of `kind` carrying `message`.
    pub fn with_kind(kind: ChordClawErrorKind, message: String) -> (e: Self)
        ensures
            e.spec_kind() == kind,
            e.spec_message() == message@,
    {
        Self { kind, message }
    }

    pub closed spec fn spec_kind(&self) -> ChordClawErrorKind {
        self.kind
    }

    pub closed spec fn spec_message(&self) -> Seq<char> {
        self.message@
    }

    /// The error kind.
    pub fn kind(&self) -> (k: ChordClawErrorKind)
        ensures
            k == self.spec_kind(),
    {
        self.kind
    }

    /// The error message.
    pub fn message(&self) -> (m: &str)
        ensures
            m@ == self.spec_message(),
    {
        self.message.as_str()
    }

    /// The error message as an owned string.
    pub fn to_string(&self) -> (m: String)
        ensures
            m@ == self.spec_message(),
    {
        self.message.clone()
    }
}

} // verus!
