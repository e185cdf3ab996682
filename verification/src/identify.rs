use vstd::prelude::*;

use crate::bits::{bit16, test_bit16};
use crate::formula::{
    degree_position, formula_tone, interval_text, natural_of, natural_semitones, raw_tones_from_spec,
    slots_from, spec_tones, tone_wf, ChordFormula, ChordTone, IntervalName,
};
use crate::formula::{
    has_omitted_alteration, has_redundant_alteration, omitted_alteration, redundant_alteration,
};
use crate::scoring::sat_sub;
use crate::notes::{
    bit_set, count_bits, fingering_frets, flat_name, letter_at, letter_index, spelled_accidental, lemma_bits_ext, note_pitch, sharp_name, note_text, play_fingering,
    played_in_order, standard_tuning, Fingering, NoteLetter, NoteName, PitchClass, PitchSet,
    PlayedFingering, PlayedNote, Tuning,
};
use crate::parse::{descriptor_valid, validate_descriptor};
use crate::symbol::{
    add_piece, adds_text, alterations_text, deferred_sus_text, harmony_text, is_special_half_dim,
    omissions_text, quality_text, sixth_text, slot_accidental, slot_of, suffix_text, ChordSpec, Extension,
    Quality, Seventh,
};
use crate::text::{chars_to_string, decimal, push_decimal, push_str, push_usize, trimmed};
use crate::ChordClawError;

verus! {

/// Most analyses kept for one fingering: a primary and aliases.
pub const MAX_IDENTIFY_ANALYSES: usize = 25;

/// Whether an analysis names every played tone or infers omitted ones.
#[derive(Copy, Clone, Debug, Eq, PartialEq, Structural)]
pub enum Confidence {
    Exact,
    Omitted,
}

/// How an analysis ranks for display.
#[derive(Copy, Clone, Debug, Eq, PartialEq, Structural)]
pub enum AnalysisClass {
    Primary,
    UsefulAlias,
    TheoreticalAlias,
}

/// One reading of a fingering as a chord symbol.
#[derive(Clone, Debug, Eq, PartialEq)]
pub struct ChordAnalysis {
    pub symbol: String,
    pub root: String,
    pub bass: String,
    pub notes: Vec<String>,
    pub intervals: Vec<String>,
    pub omissions: Vec<String>,
    pub confidence: Confidence,
    pub class: AnalysisClass,
    pub score: u32,
}

/// The notes of a fingering with its best reading and the alternatives.
#[derive(Clone, Debug, Eq, PartialEq)]
pub struct IdentifyResult {
    pub fingering: String,
    pub notes: Vec<PlayedNote>,
    pub primary: Option<ChordAnalysis>,
    pub aliases: Vec<ChordAnalysis>,
}

/// A chord tone that a reading assumes was left out.
#[derive(Copy, Clone, Debug, Eq, PartialEq, Structural)]
pub enum InferredOmission {
    Root,
    Third,
    Fifth,
}

/// The degree an inferred omission stands for.
pub open spec fn omission_degree_of(o: InferredOmission) -> int {
    match o {
        InferredOmission::Root => 1,
        InferredOmission::Third => 3,
        InferredOmission::Fifth => 5,
    }
}

/// Bit of an inferred omission in an omission mask.
pub open spec fn omission_mask_bit(o: InferredOmission) -> int {
    match o {
        InferredOmission::Root => 1,
        InferredOmission::Third => 2,
        InferredOmission::Fifth => 4,
    }
}

/// The omissions of a mask, in the order root, third, fifth.
pub open spec fn omission_seq(mask: u8) -> Seq<InferredOmission> {
    (if mask & 1 != 0 {
        seq![InferredOmission::Root]
    } else {
        Seq::empty()
    }) + (if mask & 2 != 0 {
        seq![InferredOmission::Third]
    } else {
        Seq::empty()
    }) + (if mask & 4 != 0 {
        seq![InferredOmission::Fifth]
    } else {
        Seq::empty()
    })
}

impl InferredOmission {
    /// The omission for degree 1, 3 or 5.
    pub fn from_degree(degree: u8) -> (r: Option<Self>)
        ensures
            r matches Some(o) ==> omission_degree_of(o) == degree,
            r is None <==> !(degree == 1 || degree == 3 || degree == 5),
    {
        if degree == 1 {
            Some(InferredOmission::Root)
        } else if degree == 3 {
            Some(InferredOmission::Third)
        } else if degree == 5 {
            Some(InferredOmission::Fifth)
        } else {
            None
        }
    }

    /// The omitted degree: 1, 3 or 5.
    pub fn degree(self) -> (d: u8)
        ensures
            d == omission_degree_of(self),
    {
        match self {
            InferredOmission::Root => 1,
            InferredOmission::Third => 3,
            InferredOmission::Fifth => 5,
        }
    }

    /// This omission's bit in an omission mask.
    pub fn mask_bit(self) -> (b: u8)
        ensures
            b == omission_mask_bit(self),
    {
        match self {
            InferredOmission::Root => 1,
            InferredOmission::Third => 2,
            InferredOmission::Fifth => 4,
        }
    }
}

/// The omissions of `mask` in the order root, third, fifth.
pub fn omission_list(mask: u8) -> (v: Vec<InferredOmission>)
    ensures
        v@ == omission_seq(mask),
{
    let mut v: Vec<InferredOmission> = Vec::new();
    if mask & 1 != 0 {
        v.push(InferredOmission::Root);
    }
    if mask & 2 != 0 {
        v.push(InferredOmission::Third);
    }
    if mask & 4 != 0 {
        v.push(InferredOmission::Fifth);
    }
    assert(v@ =~= omission_seq(mask));
    v
}

/// The mask of the first `k` omissions: the union of their bits.
pub open spec fn omissions_mask_of(o: Seq<InferredOmission>, k: int) -> u8
    decreases k,
{
    if k <= 0 {
        0u8
    } else {
        omissions_mask_of(o, k - 1) | (omission_mask_bit(o[k - 1]) as u8)
    }
}

/// The mask of a list of omissions.
pub fn omission_mask(omissions: &Vec<InferredOmission>) -> (m: u8)
    ensures
        m < 8,
        m == omissions_mask_of(omissions@, omissions@.len() as int),
{
    let mut m: u8 = 0;
    let mut i: usize = 0;
    while i < omissions.len()
        invariant
            0 <= i <= omissions@.len(),
            m < 8,
            m == omissions_mask_of(omissions@, i as int),
        decreases omissions@.len() - i,
    {
        let b = omissions[i].mask_bit();
        let old_m = m;
        m = m | b;
        assert(m < 8) by (bit_vector)
            requires
                old_m < 8,
                b == 1 || b == 2 || b == 4,
                m == old_m | b,
        ;
        i += 1;
    }
    m
}

/// The degree strings of an omission mask: `1`, `3`, `5`.
fn omission_strings(mask: u8) -> (v: Vec<String>)
    ensures
        v@.len() == omission_seq(mask).len(),
        forall|i: int| 0 <= i < v@.len() ==> (#[trigger] v@[i])@ == decimal(omission_degree_of(omission_seq(mask)[i]) as nat),
{
    let list = omission_list(mask);
    let mut v: Vec<String> = Vec::new();
    let mut i: usize = 0;
    while i < list.len()
        invariant
            0 <= i <= list@.len(),
            v@.len() == i,
            list@ == omission_seq(mask),
            forall|j: int| 0 <= j < i ==> (#[trigger] v@[j])@ == decimal(omission_degree_of(list@[j]) as nat),
        decreases list@.len() - i,
    {
        let mut out: Vec<char> = Vec::new();
        push_decimal(&mut out, list[i].degree() as u32);
        let text = chars_to_string(&out);
        let ghost before = v@;
        v.push(text);
        proof {
            assert forall|j: int| 0 <= j < i + 1 implies (#[trigger] v@[j])@ == decimal(
                omission_degree_of(list@[j]) as nat,
            ) by {
                if j < i {
                    assert(v@[j] == before[j]);
                }
            }
        }
        i += 1;
    }
    v
}

/// What the scoring needs of a formula, by pitch class: the degree (0 for
/// none) and the semitones above the root.
#[derive(Copy, Clone, Debug, Eq, PartialEq)]
pub struct FormulaSummary {
    pub tone_count: u8,
    pub degree_by_pitch: [u8; 12],
    pub semitone_by_pitch: [i8; 12],
}

/// A summary's degrees are chord degrees or 0.
pub open spec fn summary_wf(s: FormulaSummary) -> bool {
    &&& s.tone_count <= 50
    &&& forall|p: int| 0 <= p < 12 ==> (#[trigger] s.degree_by_pitch@[p] == 0 || degree_position(
        s.degree_by_pitch@[p] as int,
    ) >= 0)
}

/// Whether the summary has the interval `pair`: a degree and its shift from
/// the natural size.
pub open spec fn summary_has_pair(s: FormulaSummary, pair: (u8, i16)) -> bool {
    exists|p: int|
        0 <= p < 12 && #[trigger] s.degree_by_pitch@[p] == pair.0 && s.semitone_by_pitch@[p]
            - natural_of(pair.0 as int) == pair.1
}

/// The summary of a formula: each tone's degree and semitones at its pitch class.
pub fn summary_of(formula: &ChordFormula) -> (s: FormulaSummary)
    requires
        formula.wf(),
    ensures
        summary_wf(s),
        s.tone_count == formula.tones@.len(),
        forall|p: int| 0 <= p < 12 ==> (#[trigger] s.degree_by_pitch@[p] != 0 <==> exists|i: int|
            0 <= i < formula.tones@.len() && formula.tones@[i].pitch_class == p),
{
    let mut degree_by_pitch = [0u8; 12];
    let mut semitone_by_pitch = [0i8; 12];
    let mut i: usize = 0;
    while i < formula.tones.len()
        invariant
            0 <= i <= formula.tones@.len(),
            formula.wf(),
            forall|p: int| 0 <= p < 12 ==> (#[trigger] degree_by_pitch@[p] == 0 || degree_position(
                degree_by_pitch@[p] as int,
            ) >= 0),
            forall|p: int| 0 <= p < 12 ==> (#[trigger] degree_by_pitch@[p] != 0 <==> exists|j: int|
                0 <= j < i && formula.tones@[j].pitch_class == p),
        decreases formula.tones@.len() - i,
    {
        let t = formula.tones[i];
        assert(tone_wf(formula.tones@[i as int]));
        let idx = t.pitch_class as usize;
        assert(t.degree != 0);
        degree_by_pitch[idx] = t.degree;
        semitone_by_pitch[idx] = t.semitones as i8;
        proof {
            assert forall|p: int| 0 <= p < 12 implies (#[trigger] degree_by_pitch@[p] != 0 <==> exists|j: int|
                0 <= j < i + 1 && formula.tones@[j].pitch_class == p) by {
                if p == idx as int {
                    assert(formula.tones@[i as int].pitch_class == p);
                }
            }
        }
        i += 1;
    }
    FormulaSummary { tone_count: formula.tones.len() as u8, degree_by_pitch, semitone_by_pitch }
}

impl FormulaSummary {
    /// Degree and semitones of the tone at `pitch`, if any.
    pub fn tone_for_pitch(self, pitch: PitchClass) -> (r: Option<(u8, i16)>)
        requires
            summary_wf(self),
        ensures
            r matches Some((d, s)) ==> d == self.degree_by_pitch@[pitch.spec_value() as int] && d != 0
                && degree_position(d as int) >= 0,
            r is None <==> self.degree_by_pitch@[pitch.spec_value() as int] == 0,
    {
        let idx = pitch.value() as usize;
        let degree = self.degree_by_pitch[idx];
        if degree == 0 {
            None
        } else {
            Some((degree, self.semitone_by_pitch[idx] as i16))
        }
    }

    /// Whether some tone has `degree`.
    pub fn has_degree(self, degree: u8) -> (b: bool)
        ensures
            b == exists|p: int| 0 <= p < 12 && #[trigger] self.degree_by_pitch@[p] == degree,
    {
        let mut p: usize = 0;
        while p < 12
            invariant
                0 <= p <= 12,
                forall|q: int| 0 <= q < p ==> #[trigger] self.degree_by_pitch@[q] != degree,
            decreases 12 - p,
        {
            if self.degree_by_pitch[p] == degree {
                return true;
            }
            p += 1;
        }
        false
    }

    /// Whether some tone is `degree` shifted by `delta` from its natural size.
    pub fn has_interval(self, degree: u8, delta: i16) -> (b: bool)
        requires
            degree_position(degree as int) >= 0,
        ensures
            b == exists|p: int| 0 <= p < 12 && #[trigger] self.degree_by_pitch@[p] == degree
                && self.semitone_by_pitch@[p] - natural_of(degree as int) == delta,
    {
        let natural = natural_semitones(degree);
        let mut p: usize = 0;
        while p < 12
            invariant
                0 <= p <= 12,
                natural == natural_of(degree as int),
                forall|q: int| 0 <= q < p ==> !(#[trigger] self.degree_by_pitch@[q] == degree
                    && self.semitone_by_pitch@[q] - natural == delta),
            decreases 12 - p,
        {
            if self.degree_by_pitch[p] == degree {
                let semitones = self.semitone_by_pitch[p] as i16;
                if semitones - natural == delta {
                    return true;
                }
            }
            p += 1;
        }
        false
    }

    /// Whether a ninth, eleventh or thirteenth is present.
    pub fn has_upper_structure(self) -> (b: bool)
        ensures
            b == ((exists|p: int| 0 <= p < 12 && #[trigger] self.degree_by_pitch@[p] == 9) || (exists|
                p: int,
            | 0 <= p < 12 && #[trigger] self.degree_by_pitch@[p] == 11) || (exists|p: int|
                0 <= p < 12 && #[trigger] self.degree_by_pitch@[p] == 13)),
    {
        self.has_degree(9) || self.has_degree(11) || self.has_degree(13)
    }

    /// Whether every listed interval is present.
    pub fn has_intervals(self, intervals: &[(u8, i16)]) -> (b: bool)
        requires
            forall|i: int| 0 <= i < intervals@.len() ==> degree_position(#[trigger] intervals@[i].0 as int)
                >= 0,
        ensures
            b == forall|i: int| 0 <= i < intervals@.len() ==> #[trigger] summary_has_pair(
                self,
                intervals@[i],
            ),
    {
        let mut i: usize = 0;
        while i < intervals.len()
            invariant
                0 <= i <= intervals@.len(),
                forall|i: int| 0 <= i < intervals@.len() ==> degree_position(#[trigger] intervals@[i].0 as int)
                    >= 0,
                forall|j: int| 0 <= j < i ==> #[trigger] summary_has_pair(self, intervals@[j]),
            decreases intervals@.len() - i,
        {
            let (d, delta) = intervals[i];
            if !self.has_interval(d, delta) {
                assert(!summary_has_pair(self, intervals@[i as int]));
                return false;
            }
            assert(summary_has_pair(self, intervals@[i as int]));
            i += 1;
        }
        true
    }

    /// Whether the fifth is present but not perfect.
    pub fn has_altered_fifth(self) -> (b: bool)
        ensures
            b == exists|p: int| 0 <= p < 12 && #[trigger] self.degree_by_pitch@[p] == 5
                && self.semitone_by_pitch@[p] != 7,
    {
        let mut p: usize = 0;
        while p < 12
            invariant
                0 <= p <= 12,
                forall|q: int| 0 <= q < p ==> !(#[trigger] self.degree_by_pitch@[q] == 5
                    && self.semitone_by_pitch@[q] != 7),
            decreases 12 - p,
        {
            if self.degree_by_pitch[p] == 5 && self.semitone_by_pitch[p] as i16 != natural_semitones(5) {
                return true;
            }
            p += 1;
        }
        false
    }

    /// A seventh plus an upper extension over a major third: the shape a
    /// rootless voicing still names.
    pub fn supports_rootless_upper_alias(self) -> (b: bool)
        ensures
            b == (((exists|p: int| 0 <= p < 12 && #[trigger] self.degree_by_pitch@[p] == 9) || (exists|
                p: int,
            | 0 <= p < 12 && #[trigger] self.degree_by_pitch@[p] == 11) || (exists|p: int|
                0 <= p < 12 && #[trigger] self.degree_by_pitch@[p] == 13)) && (exists|p: int|
                0 <= p < 12 && #[trigger] self.degree_by_pitch@[p] == 7) && (exists|p: int|
                0 <= p < 12 && #[trigger] self.degree_by_pitch@[p] == 3 && self.semitone_by_pitch@[p]
                == natural_of(3))),
    {
        let upper = self.has_upper_structure();
        let seventh = self.has_degree(7);
        let major_third = self.has_interval(3, 0);
        upper && seventh && major_third
    }
}

/// Whether a tone's degree may be assumed missing from a formula: the root
/// of a chord of four or more tones, the third of a chord with a seventh and
/// four or more tones, or a perfect fifth.
pub open spec fn omission_inferable(tone: ChordTone, tones: Seq<ChordTone>) -> bool {
    if tone.degree == 1 {
        tones.len() >= 4
    } else if tone.degree == 3 {
        tones.len() >= 4 && exists|i: int|
            0 <= i < tones.len() && #[trigger] tones[i].degree == 7
    } else if tone.degree == 5 {
        tone.interval.degree == 5 && tone.interval.semitones == 7
    } else {
        false
    }
}

/// `i` is the first tone of `tones` that sounds at pitch class `p`.
pub open spec fn first_tone_at(tones: Seq<ChordTone>, i: int, p: int) -> bool {
    &&& 0 <= i < tones.len()
    &&& tones[i].pitch_class == p
    &&& forall|j: int| 0 <= j < i ==> #[trigger] tones[j].pitch_class != p
}

/// Every tone of degree `d` sounds at a missing pitch class.
pub open spec fn degree_fully_missing(tones: Seq<ChordTone>, missing: Set<int>, d: int) -> bool {
    forall|j: int|
        0 <= j < tones.len() && #[trigger] tones[j].degree == d ==> missing.contains(
            tones[j].pitch_class as int,
        )
}

/// The missing pitch class `p` stands for an omissible tone all of whose
/// degree is missing.
pub open spec fn pitch_omissible(tones: Seq<ChordTone>, missing: Set<int>, p: int) -> bool {
    exists|i: int|
        #[trigger] first_tone_at(tones, i, p) && omission_inferable(tones[i], tones)
            && degree_fully_missing(tones, missing, tones[i].degree as int)
}

/// Some missing pitch class stands for a tone of degree `d`.
pub open spec fn omitted_degree(tones: Seq<ChordTone>, missing: Set<int>, d: int) -> bool {
    exists|p: int, i: int|
        0 <= p < 12 && missing.contains(p) && #[trigger] first_tone_at(tones, i, p)
            && tones[i].degree == d
}

/// The omission mask of the degrees that the missing pitch classes stand
/// for: 1 for the root, 2 for the third, 4 for the fifth.
pub open spec fn omission_mask_for(tones: Seq<ChordTone>, missing: Set<int>) -> int {
    (if omitted_degree(tones, missing, 1) {
        1int
    } else {
        0int
    }) + (if omitted_degree(tones, missing, 3) {
        2int
    } else {
        0int
    }) + (if omitted_degree(tones, missing, 5) {
        4int
    } else {
        0int
    })
}

/// A pitch class of the formula that is not missing.
pub open spec fn kept_pitch(tones: Seq<ChordTone>, missing: Set<int>, p: int) -> bool {
    (exists|i: int| 0 <= i < tones.len() && #[trigger] tones[i].pitch_class == p)
        && !missing.contains(p)
}

/// Number of kept pitch classes below `n`.
pub open spec fn kept_count(tones: Seq<ChordTone>, missing: Set<int>, n: nat) -> nat
    decreases n,
{
    if n == 0 {
        0
    } else {
        kept_count(tones, missing, (n - 1) as nat) + if kept_pitch(tones, missing, n - 1) {
            1nat
        } else {
            0nat
        }
    }
}

/// The missing pitch classes can all be read as omitted tones, and at least
/// two pitch classes of the formula remain.
pub open spec fn omission_allowed(tones: Seq<ChordTone>, missing: Set<int>) -> bool {
    &&& forall|p: int| 0 <= p < 12 && missing.contains(p) ==> #[trigger] pitch_omissible(tones, missing, p)
    &&& kept_count(tones, missing, 12) >= 2
}

proof fn lemma_kept_count(tones: Seq<ChordTone>, missing: Set<int>, kept: PitchSet, n: nat)
    requires
        n <= 12,
        forall|p: int| 0 <= p < 12 ==> (#[trigger] kept.has(p) <==> kept_pitch(tones, missing, p)),
    ensures
        count_bits(kept.bits, n) == kept_count(tones, missing, n),
    decreases n,
{
    if n > 0 {
        lemma_kept_count(tones, missing, kept, (n - 1) as nat);
        assert(kept.has(n - 1) <==> kept_pitch(tones, missing, n - 1));
    }
}

/// The first tone at a pitch class is unique.
proof fn lemma_first_tone_unique(tones: Seq<ChordTone>, i: int, k: int, p: int)
    requires
        first_tone_at(tones, i, p),
        first_tone_at(tones, k, p),
    ensures
        i == k,
{
    if i < k {
        assert(tones[i].pitch_class != p);
    } else if k < i {
        assert(tones[k].pitch_class != p);
    }
}

/// Whether a tone's degree may be assumed missing from a formula.
pub fn can_infer_omission(tone: &ChordTone, formula: &ChordFormula) -> (b: bool)
    ensures
        b == omission_inferable(*tone, formula.tones@),
{
    if tone.degree == 1 {
        formula.tones.len() >= 4
    } else if tone.degree == 3 {
        formula.tones.len() >= 4 && formula.has_degree(7)
    } else if tone.degree == 5 {
        tone.interval.is_natural_fifth()
    } else {
        false
    }
}

/// The degrees a reading may assume missing when `missing` pitch classes of
/// the formula were not played: each must be an omissible root, third or
/// fifth whose every tone is missing, and at least two pitches must remain.
pub fn inferred_omission_degrees(missing: PitchSet, formula: &ChordFormula) -> (r: Option<u8>)
    requires
        formula.wf(),
        missing.wf(),
    ensures
        r matches Some(m) ==> m < 8,
        missing.bits == 0 ==> r == Some(0u8),
        r matches Some(m) ==> (m == 0 <==> missing.bits == 0),
        missing.bits != 0 ==> (r is Some <==> omission_allowed(formula.tones@, missing.pitches())),
        r matches Some(m) ==> m == omission_mask_for(formula.tones@, missing.pitches()),
{
    if missing.bits == 0 {
        proof {
            lemma_no_members(missing);
        }
        return Some(0);
    }
    let ghost tones = formula.tones@;
    let mut root = false;
    let mut third = false;
    let mut fifth = false;
    let mut p: u8 = 0;
    while p < 12
        invariant
            0 <= p <= 12,
            formula.wf(),
            missing.wf(),
            missing.bits != 0,
            tones == formula.tones@,
            forall|q: int| 0 <= q < p && missing.has(q) ==> #[trigger] pitch_omissible(tones, missing.pitches(), q),
            root == exists|q: int, i: int|
                0 <= q < p && missing.has(q) && #[trigger] first_tone_at(tones, i, q) && tones[i].degree == 1,
            third == exists|q: int, i: int|
                0 <= q < p && missing.has(q) && #[trigger] first_tone_at(tones, i, q) && tones[i].degree == 3,
            fifth == exists|q: int, i: int|
                0 <= q < p && missing.has(q) && #[trigger] first_tone_at(tones, i, q) && tones[i].degree == 5,
        decreases 12 - p,
    {
        if missing.contains_value(p) {
            let pitch = PitchClass::from_value(p);
            let tone = match formula.tone_for_pitch(pitch) {
                Some(t) => t,
                None => {
                    proof {
                        if pitch_omissible(tones, missing.pitches(), p as int) {
                            let i = choose|i: int| #[trigger] first_tone_at(tones, i, p as int)
                                && omission_inferable(tones[i], tones) && degree_fully_missing(
                                tones,
                                missing.pitches(),
                                tones[i].degree as int,
                            );
                            assert(tones[i].pitch_class != p);
                        }
                        assert(!pitch_omissible(tones, missing.pitches(), p as int));
                    }
                    return None;
                },
            };
            let ghost k = choose|i: int|
                0 <= i < tones.len() && tones[i] == tone && tone.pitch_class == p as int && forall|j: int|
                    0 <= j < i ==> #[trigger] tones[j].pitch_class != p as int;
            assert(first_tone_at(tones, k, p as int));
            if !can_infer_omission(&tone, formula) {
                proof {
                    if pitch_omissible(tones, missing.pitches(), p as int) {
                        let i = choose|i: int| #[trigger] first_tone_at(tones, i, p as int)
                            && omission_inferable(tones[i], tones) && degree_fully_missing(
                            tones,
                            missing.pitches(),
                            tones[i].degree as int,
                        );
                        lemma_first_tone_unique(tones, i, k, p as int);
                    }
                }
                return None;
            }
            let mut j: usize = 0;
            while j < formula.tones.len()
                invariant
                    0 <= j <= formula.tones@.len(),
                    formula.wf(),
                    missing.wf(),
                    missing.bits != 0,
                    p < 12,
                    tones == formula.tones@,
                    first_tone_at(tones, k, p as int),
                    tones[k] == tone,
                    missing.has(p as int),
                    forall|m: int|
                        0 <= m < j && #[trigger] tones[m].degree == tone.degree ==> missing.has(
                            tones[m].pitch_class as int,
                        ),
                decreases formula.tones@.len() - j,
            {
                let other = formula.tones[j];
                assert(tone_wf(formula.tones@[j as int]));
                if other.degree == tone.degree && !missing.contains_value(other.pitch_class) {
                    proof {
                        if pitch_omissible(tones, missing.pitches(), p as int) {
                            let i = choose|i: int| #[trigger] first_tone_at(tones, i, p as int)
                                && omission_inferable(tones[i], tones) && degree_fully_missing(
                                tones,
                                missing.pitches(),
                                tones[i].degree as int,
                            );
                            lemma_first_tone_unique(tones, i, k, p as int);
                            assert(tones[j as int].degree == tones[i].degree);
                        }
                    }
                    return None;
                }
                j += 1;
            }
            assert(degree_fully_missing(tones, missing.pitches(), tone.degree as int));
            assert(pitch_omissible(tones, missing.pitches(), p as int));
            let ghost old_root = root;
            let ghost old_third = third;
            let ghost old_fifth = fifth;
            if tone.degree == 1 {
                root = true;
            } else if tone.degree == 3 {
                third = true;
            } else {
                fifth = true;
            }
            proof {
                assert(tone.degree == 1 || tone.degree == 3 || tone.degree == 5);
                assert forall|q: int, i: int|
                    0 <= q < p + 1 && missing.has(q) && #[trigger] first_tone_at(tones, i, q) implies (
                    tones[i].degree == 1 ==> root) && (tones[i].degree == 3 ==> third) && (
                    tones[i].degree == 5 ==> fifth) by {
                    if q == p as int {
                        lemma_first_tone_unique(tones, i, k, q);
                    }
                }
                if root && !old_root {
                    assert(0 <= p < p + 1 && missing.has(p as int) && first_tone_at(tones, k, p as int)
                        && tones[k].degree == 1);
                }
                if third && !old_third {
                    assert(0 <= p < p + 1 && missing.has(p as int) && first_tone_at(tones, k, p as int)
                        && tones[k].degree == 3);
                }
                if fifth && !old_fifth {
                    assert(0 <= p < p + 1 && missing.has(p as int) && first_tone_at(tones, k, p as int)
                        && tones[k].degree == 5);
                }
            }
        }
        p += 1;
    }
    let omissions: u8 = (if root {
        1u8
    } else {
        0u8
    }) + (if third {
        2u8
    } else {
        0u8
    }) + (if fifth {
        4u8
    } else {
        0u8
    });
    if omissions == 0 {
        proof {
            if forall|q: u16| q < 12 ==> !bit_set(missing.bits, q) {
                assert forall|q: u16| q < 12 implies bit_set(missing.bits, q) == bit_set(0u16, q) by {
                    assert(!bit_set(0u16, q)) by (bit_vector);
                }
                lemma_bits_ext(missing.bits, 0);
            }
            let b = choose|q: u16| q < 12 && bit_set(missing.bits, q);
            assert(missing.has(b as int));
            let q = b as int;
            assert(pitch_omissible(tones, missing.pitches(), q));
            let i = choose|i: int| #[trigger] first_tone_at(tones, i, q)
                && omission_inferable(tones[i], tones) && degree_fully_missing(
                tones,
                missing.pitches(),
                tones[i].degree as int,
            );
            assert(tones[i].degree == 1 || tones[i].degree == 3 || tones[i].degree == 5);
        }
        return None;
    }
    let formula_set = formula.pitch_set();
    let kept = formula_set.difference(missing);
    proof {
        lemma_kept_count(tones, missing.pitches(), kept, 12);
    }
    if kept.len() < 2 {
        return None;
    }
    Some(omissions)
}

/// Whether `missing` pitch classes can all be read as omitted tones.
pub fn can_omit(missing: PitchSet, formula: &ChordFormula) -> (b: bool)
    requires
        formula.wf(),
        missing.wf(),
    ensures
        b == (missing.bits == 0 || omission_allowed(formula.tones@, missing.pitches())),
{
    inferred_omission_degrees(missing, formula).is_some()
}

/// Pitch classes usually spelled with a flat: D-flat, E-flat, A-flat, B-flat.
pub open spec fn flat_pitch(p: int) -> bool {
    p == 1 || p == 3 || p == 8 || p == 10
}

/// Whether `pitch` is usually spelled with a flat.
pub fn prefer_flat_pitch(pitch: PitchClass) -> (b: bool)
    ensures
        b == flat_pitch(pitch.spec_value() as int),
{
    let v = pitch.value();
    v == 1 || v == 3 || v == 8 || v == 10
}

/// Semitones from the root up to the bass, `0..12`.
pub fn slash_bass_interval(root: NoteName, bass: PitchClass) -> (i: u8)
    ensures
        i < 12,
        i == (bass.spec_value() + 12 - note_pitch(root)) % 12,
{
    (bass.value() + 12 - root.pitch_class().value()) % 12
}

/// Cost of an exact slash bass by its interval above the root.
pub open spec fn exact_slash_bass_penalty_of(interval: int) -> int {
    if interval == 1 || interval == 3 || interval == 6 || interval == 8 {
        18
    } else if 9 <= interval <= 11 {
        120
    } else if interval == 2 || interval == 5 || interval == 7 {
        10
    } else {
        30
    }
}

fn exact_slash_bass_penalty(interval: u8) -> (p: u32)
    ensures
        p == exact_slash_bass_penalty_of(interval as int),
{
    if interval == 1 || interval == 3 || interval == 6 || interval == 8 {
        18
    } else if 9 <= interval && interval <= 11 {
        120
    } else if interval == 2 || interval == 5 || interval == 7 {
        10
    } else {
        30
    }
}

/// Offset taken off a slash reading: more for a plain major or minor triad.
pub open spec fn exact_slash_bass_offset_of(spec: ChordSpec) -> int {
    if (spec.quality == Quality::Major || spec.quality == Quality::Minor) && spec.seventh
        == Seventh::Absent && spec.extension is None && !spec.sixth && !spec.alt && spec.add_bits
        == 0 && spec.alteration_bits == 0 {
        400
    } else {
        340
    }
}

fn exact_slash_bass_offset(spec: &ChordSpec) -> (o: u32)
    ensures
        o == exact_slash_bass_offset_of(*spec),
{
    if (spec.quality == Quality::Major || spec.quality == Quality::Minor) && spec.seventh
        == Seventh::Absent && spec.extension.is_none() && !spec.sixth && !spec.alt && spec.add_bits
        == 0 && spec.alteration_bits == 0 {
        400
    } else {
        340
    }
}

/// Cost of a chord tone in the bass, by its degree.
pub open spec fn chord_tone_bass_penalty_of(degree: int) -> int {
    if degree == 1 {
        0
    } else if degree == 3 {
        45
    } else if degree == 5 {
        35
    } else if degree == 7 {
        70
    } else if degree == 2 || degree == 4 || degree == 6 || degree == 9 || degree == 11 || degree == 13 {
        90
    } else {
        120
    }
}

fn chord_tone_bass_penalty_for_degree(degree: u8) -> (p: u32)
    ensures
        p == chord_tone_bass_penalty_of(degree as int),
{
    if degree == 1 {
        0
    } else if degree == 3 {
        45
    } else if degree == 5 {
        35
    } else if degree == 7 {
        70
    } else if degree == 2 || degree == 4 || degree == 6 || degree == 9 || degree == 11 || degree == 13 {
        90
    } else {
        120
    }
}

/// Cost of a bass tone: by its degree, or 400 when it is not a chord tone.
fn chord_tone_bass_penalty_from_summary(summary: FormulaSummary, bass: PitchClass) -> (p: u32)
    requires
        summary_wf(summary),
    ensures
        p == if summary.degree_by_pitch@[bass.spec_value() as int] == 0 {
            400
        } else {
            chord_tone_bass_penalty_of(summary.degree_by_pitch@[bass.spec_value() as int] as int)
        },
{
    match summary.tone_for_pitch(bass) {
        Some((degree, _)) => chord_tone_bass_penalty_for_degree(degree),
        None => 400,
    }
}

/// Cost of a root spelled against the usual accidental of its pitch.
pub open spec fn root_spelling_penalty_of(root: NoteName) -> int {
    let p = note_pitch(root);
    if flat_pitch(p) && root.accidental > 0 {
        30
    } else if !flat_pitch(p) && root.accidental < 0 {
        30
    } else {
        0
    }
}

fn root_spelling_penalty(root: NoteName) -> (p: u32)
    ensures
        p == root_spelling_penalty_of(root),
{
    let pitch = root.pitch_class();
    if prefer_flat_pitch(pitch) && root.accidental > 0 {
        return 30;
    }
    if !prefer_flat_pitch(pitch) && root.accidental < 0 {
        return 30;
    }
    0
}

/// Number of decimal digits of `v`.
pub open spec fn decimal_len_of(v: int) -> int {
    if v >= 100 {
        3
    } else if v >= 10 {
        2
    } else {
        1
    }
}

fn decimal_len(v: u8) -> (n: usize)
    ensures
        n == decimal_len_of(v as int),
{
    if v >= 100 {
        3
    } else if v >= 10 {
        2
    } else {
        1
    }
}

/// Length of an extension's text.
fn extension_suffix_len(spec: &ChordSpec, extension: Extension) -> (n: usize)
    ensures
        n <= 7,
        n == (if spec.seventh == Seventh::Major && spec.quality == Quality::Minor {
            5int
        } else if spec.seventh == Seventh::Major {
            3
        } else {
            0
        }) + (if extension == Extension::Ninth {
            1int
        } else {
            2
        }),
{
    let text_len: usize = match extension {
        Extension::Ninth => 1,
        Extension::Eleventh => 2,
        Extension::Thirteenth => 2,
    };
    if spec.seventh == Seventh::Major && spec.quality == Quality::Minor {
        5 + text_len
    } else if spec.seventh == Seventh::Major {
        3 + text_len
    } else {
        text_len
    }
}

/// Decimal text of a number below a hundred has [`decimal_len_of`] digits.
proof fn lemma_decimal_len(v: nat)
    requires
        v < 100,
    ensures
        decimal(v).len() == decimal_len_of(v as int),
{
    if v >= 10 {
        assert(decimal(v / 10).len() == 1);
    }
}

/// Length of the quality, sixth, harmony and deferred suspension text.
fn head_suffix_len(spec: &ChordSpec) -> (n: usize)
    ensures
        n <= 20,
        n == quality_text(*spec).len() + sixth_text(*spec).len() + harmony_text(*spec).len()
            + deferred_sus_text(*spec).len(),
{
    let numbered = spec.sixth || spec.seventh != Seventh::Absent || spec.extension.is_some();
    let deferred_sus_len: usize = match spec.quality {
        Quality::Sus2 => 4,
        Quality::Sus4 => 4,
        _ => 0,
    };
    let mut len: usize = match spec.quality {
        Quality::Major => 0,
        Quality::Power => 0,
        Quality::Minor => 1,
        Quality::Diminished => 3,
        Quality::Augmented => 3,
        Quality::Sus2 => if !numbered {
            deferred_sus_len
        } else {
            0
        },
        Quality::Sus4 => if !numbered {
            deferred_sus_len
        } else {
            0
        },
    };
    assert(len == quality_text(*spec).len());
    if spec.sixth {
        len += 1;
        if spec.contains_add(9) {
            len += 2;
        }
    }
    assert(len == quality_text(*spec).len() + sixth_text(*spec).len());
    match spec.extension {
        Some(extension) => {
            len += extension_suffix_len(spec, extension);
        },
        None => {
            len += match spec.seventh {
                Seventh::Absent => 0,
                Seventh::Minor => 1,
                Seventh::Diminished => 1,
                Seventh::Major => if spec.quality == Quality::Minor {
                    6
                } else {
                    4
                },
            };
        },
    }
    if numbered {
        len += deferred_sus_len;
    }
    assert(len == quality_text(*spec).len() + sixth_text(*spec).len() + harmony_text(*spec).len()
        + deferred_sus_text(*spec).len());
    len
}

/// Length of the suffix a spec is written with, counted without building it.
#[verifier::rlimit(40)]
fn spec_suffix_len(spec: &ChordSpec) -> (n: usize)
    ensures
        n <= 200,
        n == suffix_text(*spec).len(),
{
    if spec.quality == Quality::Power {
        return 1;
    }
    if spec.alt {
        return 3;
    }
    if is_special_half_dim(spec) {
        return 4;
    }
    let len = head_suffix_len(spec);
    let ghost head = quality_text(*spec) + sixth_text(*spec) + harmony_text(*spec) + deferred_sus_text(*spec)
        + adds_text(*spec, 0);
    assert(len <= 20);
    let len = len + adds_suffix_len(spec);
    assert(len == head.len());
    let len = with_alterations_len(spec, len);
    len + omissions_suffix_len(spec)
}

/// Length of the added degrees' text.
fn adds_suffix_len(spec: &ChordSpec) -> (n: usize)
    ensures
        n <= 15,
        n == adds_text(*spec, 0).len(),
{
    let mut len: usize = 0;
    let mut k: u16 = 0;
    while k < 3
        invariant
            0 <= k <= 3,
            len <= 5 * k,
            len + adds_text(*spec, k as int).len() == adds_text(*spec, 0).len(),
        decreases 3 - k,
    {
        assert(adds_text(*spec, k as int) == add_piece(*spec, k as int) + adds_text(*spec, k + 1));
        if test_bit16(spec.add_bits, k) {
            let degree: u8 = if k == 0 {
                9
            } else if k == 1 {
                11
            } else {
                13
            };
            proof {
                lemma_decimal_len(degree as nat);
            }
            if !(spec.sixth && degree == 9) {
                len += 3 + decimal_len(degree);
            }
        }
        k += 1;
    }
    len
}

/// `head_len` and the length of the alterations' text after a head of that
/// length.
fn with_alterations_len(spec: &ChordSpec, head_len: usize) -> (n: usize)
    requires
        head_len <= 35,
    ensures
        n <= 131,
        n == head_len + alterations_text(*spec, 0, head_len == 0).len(),
{
    let mut len = head_len;
    let mut k: u16 = 0;
    while k < 16
        invariant
            0 <= k <= 16,
            len <= 35 + 6 * k,
            head_len <= len,
            len == head_len ==> (len == 0) == (head_len == 0),
            len + alterations_text(*spec, k as int, len == 0).len() == head_len + alterations_text(
                *spec,
                0,
                head_len == 0,
            ).len(),
        decreases 16 - k,
    {
        if test_bit16(spec.alteration_bits, k) {
            let a = crate::symbol::slot_alteration(k);
            let magnitude: usize = if a.accidental < 0 {
                (-(a.accidental as i16)) as usize
            } else {
                a.accidental as usize
            };
            proof {
                lemma_decimal_len(a.degree as nat);
                assert(crate::notes::accidental_chars(slot_accidental(k as int)).len() == magnitude);
            }
            let alteration_len = magnitude + decimal_len(a.degree);
            if len == 0 && a.accidental != 0 {
                len += alteration_len + 2;
            } else {
                len += alteration_len;
            }
        }
        k += 1;
    }
    len
}

/// Length of the omissions' text.
fn omissions_suffix_len(spec: &ChordSpec) -> (n: usize)
    ensures
        n <= 9,
        n == omissions_text(*spec, 0).len(),
{
    let mut len: usize = 0;
    let mut k: u16 = 0;
    while k < 3
        invariant
            0 <= k <= 3,
            len <= 3 * k,
            len + omissions_text(*spec, k as int).len() == omissions_text(*spec, 0).len(),
        decreases 3 - k,
    {
        if test_bit16(spec.omission_bits, k) {
            let degree: u8 = if k == 0 {
                1
            } else if k == 1 {
                3
            } else {
                5
            };
            proof {
                lemma_decimal_len(degree as nat);
            }
            len += 2 + decimal_len(degree);
        }
        k += 1;
    }
    len
}

/// Number of alterations in a spec.
fn alteration_count(spec: &ChordSpec) -> (n: u32)
    ensures
        n <= 16,
        n == 0 <==> forall|k: int| 0 <= k < 16 ==> !#[trigger] bit16(spec.alteration_bits, k as u16),
        n == count_bits(spec.alteration_bits, 16),
{
    let mut n: u32 = 0;
    let mut k: u16 = 0;
    while k < 16
        invariant
            0 <= k <= 16,
            n <= k,
            n == count_bits(spec.alteration_bits, k as nat),
            n == 0 <==> forall|j: int| 0 <= j < k ==> !#[trigger] bit16(spec.alteration_bits, j as u16),
        decreases 16 - k,
    {
        if test_bit16(spec.alteration_bits, k) {
            n += 1;
            assert(bit16(spec.alteration_bits, (k as int) as u16));
        }
        k += 1;
    }
    n
}

/// What a reading is charged before discounts: the bass penalty, the
/// suffix's length, the root's accidentals and spelling, the tone count, and
/// charges for an omission, an extension, added degrees and alterations.
pub open spec fn analysis_base_of(
    root: NoteName,
    spec: ChordSpec,
    summary: FormulaSummary,
    bass: int,
    omitted: bool,
    penalize: bool,
) -> int {
    let alterations = count_bits(spec.alteration_bits, 16);
    let root_pitch = note_pitch(root);
    let bass_penalty = if bass != root_pitch && penalize {
        if omitted {
            400
        } else if summary.degree_by_pitch@[bass] == 0 {
            400
        } else {
            chord_tone_bass_penalty_of(summary.degree_by_pitch@[bass] as int)
        }
    } else {
        0
    };
    let magnitude = if root.accidental < 0 {
        -root.accidental
    } else {
        root.accidental as int
    };
    bass_penalty + suffix_text(spec).len() + magnitude * 8 + root_spelling_penalty_of(root)
        + summary.tone_count * 4 + (if omitted {
        80int
    } else {
        0
    }) + (if spec.extension is Some {
        30int
    } else {
        0
    }) + (if spec.add_bits != 0 {
        20int
    } else {
        0
    }) + alterations * 25
}

/// [`analysis_base_of`] less the discounts for plain added-tone triads, major
/// triads and dominant extensions over their root.
#[verifier::opaque]
pub open spec fn analysis_score_of(
    root: NoteName,
    spec: ChordSpec,
    summary: FormulaSummary,
    bass: int,
    omitted: bool,
    penalize: bool,
) -> int {
    let alterations = count_bits(spec.alteration_bits, 16);
    let root_pitch = note_pitch(root);
    let base = analysis_base_of(root, spec, summary, bass, omitted, penalize);
    let plain_added = if !omitted && spec.seventh == Seventh::Absent && spec.extension is None && spec.add_bits
        != 0 && !spec.has_add(13) && alterations == 0 {
        sat_sub(base, 35)
    } else {
        base
    };
    let major_triad = if spec.quality == Quality::Major && spec.seventh == Seventh::Absent && spec.extension is None {
        sat_sub(plain_added, 10)
    } else {
        plain_added
    };
    if !omitted && bass == root_pitch && spec.quality == Quality::Major && spec.seventh == Seventh::Minor && (
    spec.extension is Some || alterations != 0 || spec.alt) {
        sat_sub(major_triad, 40)
    } else {
        major_triad
    }
}

/// The base score of a reading; lower is better.
#[verifier::rlimit(60)]
fn analysis_score(
    root: NoteName,
    spec: &ChordSpec,
    summary: FormulaSummary,
    bass: PitchClass,
    omitted: bool,
    penalize_chord_tone_bass: bool,
) -> (score: u32)
    requires
        summary_wf(summary),
        -2 <= root.accidental <= 2,
    ensures
        score <= 2000,
        score == analysis_score_of(root, *spec, summary, bass.spec_value() as int, omitted, penalize_chord_tone_bass),
{
    let mut score: u32 = 0;
    if bass.value() != root.pitch_class().value() && penalize_chord_tone_bass {
        score += if omitted {
            400
        } else {
            chord_tone_bass_penalty_from_summary(summary, bass)
        };
    }
    score += spec_suffix_len(spec) as u32;
    let magnitude: u32 = if root.accidental < 0 {
        (-(root.accidental as i16)) as u32
    } else {
        root.accidental as u32
    };
    score += magnitude * 8;
    score += root_spelling_penalty(root);
    score += summary.tone_count as u32 * 4;
    if omitted {
        score += 80;
    }
    if spec.extension.is_some() {
        score += 30;
    }
    if spec.add_bits != 0 {
        score += 20;
    }
    let alterations = alteration_count(spec);
    if alterations != 0 {
        score += alterations * 25;
    }
    assert(score == analysis_base_of(root, *spec, summary, bass.spec_value() as int, omitted, penalize_chord_tone_bass));
    if !omitted && spec.seventh == Seventh::Absent && spec.extension.is_none() && spec.add_bits != 0
        && !spec.contains_add(13) && alterations == 0 {
        score = score.saturating_sub(35);
    }
    if spec.quality == Quality::Major && spec.seventh == Seventh::Absent && spec.extension.is_none() {
        score = score.saturating_sub(10);
    }
    if !omitted && bass.value() == root.pitch_class().value() && spec.quality == Quality::Major
        && spec.seventh == Seventh::Minor && (spec.extension.is_some() || alterations != 0
        || spec.alt) {
        score = score.saturating_sub(40);
    }
    proof {
        reveal(analysis_score_of);
    }
    score
}

/// Some pitch of the summary has degree `d`.
pub open spec fn summary_degree(s: FormulaSummary, d: int) -> bool {
    exists|p: int| 0 <= p < 12 && #[trigger] s.degree_by_pitch@[p] == d
}

/// The summary's fifth is present but not perfect.
pub open spec fn summary_altered_fifth(s: FormulaSummary) -> bool {
    exists|p: int| 0 <= p < 12 && #[trigger] s.degree_by_pitch@[p] == 5 && s.semitone_by_pitch@[p] != 7
}

/// A ninth, eleventh or thirteenth is present.
pub open spec fn summary_upper(s: FormulaSummary) -> bool {
    summary_degree(s, 9) || summary_degree(s, 11) || summary_degree(s, 13)
}

/// A seventh and an upper extension over a major third.
pub open spec fn summary_rootless_upper(s: FormulaSummary) -> bool {
    summary_upper(s) && summary_degree(s, 7) && exists|p: int|
        0 <= p < 12 && #[trigger] s.degree_by_pitch@[p] == 3 && s.semitone_by_pitch@[p] == natural_of(3)
}

/// Cost of one inferred omission: a root costs less where a rootless upper
/// structure remains, a third less in a four-tone chord with a minor
/// seventh, a fifth less with an upper structure.
#[verifier::opaque]
pub open spec fn omission_score_of(o: InferredOmission, s: FormulaSummary) -> int {
    match o {
        InferredOmission::Root => if summary_rootless_upper(s) {
            100
        } else {
            500
        },
        InferredOmission::Third => if s.tone_count == 4 && summary_has_pair(s, (7u8, -1i16)) {
            420
        } else {
            500
        },
        InferredOmission::Fifth => if summary_upper(s) {
            40
        } else {
            80
        },
    }
}

/// Cost of one inferred omission.
fn omission_score(omission: InferredOmission, summary: FormulaSummary) -> (s: u32)
    ensures
        s <= 500,
        s == omission_score_of(omission, summary),
{
    proof {
        reveal(omission_score_of);
    }
    match omission {
        InferredOmission::Root => {
            if summary.supports_rootless_upper_alias() {
                100
            } else {
                500
            }
        },
        InferredOmission::Third => {
            let pairs: &[(u8, i16)] = &[(7u8, -1i16)];
            let found = summary.has_intervals(pairs);
            assert(pairs@[0] == (7u8, -1i16));
            if summary.tone_count == 4 && found {
                420
            } else {
                500
            }
        },
        InferredOmission::Fifth => {
            if summary.has_upper_structure() {
                40
            } else {
                80
            }
        },
    }
}

/// Number of omissions in a mask.
fn omission_count(mask: u8) -> (n: usize)
    ensures
        n <= 3,
        n == (if mask & 1 != 0 { 1int } else { 0 }) + (if mask & 2 != 0 { 1int } else { 0 }) + (if mask
            & 4 != 0 {
            1int
        } else {
            0
        }),
{
    let mut n: usize = 0;
    if mask & 1 != 0 {
        n += 1;
    }
    if mask & 2 != 0 {
        n += 1;
    }
    if mask & 4 != 0 {
        n += 1;
    }
    n
}

/// Bonus for a rooted extended chord read with only its fifth omitted.
fn rooted_extension_omitted_fifth_bonus(
    summary: FormulaSummary,
    omitted: bool,
    omissions: u8,
    slash_bass: bool,
) -> (b: u32)
    ensures
        b <= 160,
        b == (if !slash_bass && omitted && omissions == 4 && summary_degree(summary, 3) && summary_degree(
            summary,
            7,
        ) && (summary_degree(summary, 9) || summary_degree(summary, 13)) && !summary_altered_fifth(
            summary,
        ) {
            160int
        } else {
            0
        }),
{
    if !slash_bass && omitted && omissions == 4 && summary.has_degree(3) && summary.has_degree(7)
        && (summary.has_degree(9) || summary.has_degree(13)) && !summary.has_altered_fifth() {
        160
    } else {
        0
    }
}

/// Bonus for a rooted seventh chord read with only its third omitted.
fn rooted_seventh_omitted_third_bonus(
    root: NoteName,
    bass: PitchClass,
    summary: FormulaSummary,
    omitted: bool,
    omissions: u8,
) -> (b: u32)
    ensures
        b <= 180,
        b == (if omitted && bass.spec_value() == note_pitch(root) && omissions == 2 && summary_degree(
            summary,
            7,
        ) && !summary_altered_fifth(summary) {
            180int
        } else {
            0
        }),
{
    if omitted && bass.value() == root.pitch_class().value() && omissions == 2 && summary.has_degree(7)
        && !summary.has_altered_fifth() {
        180
    } else {
        0
    }
}

/// A rootless upper-structure reading: root (and maybe fifth) omitted over a
/// dominant or major seventh with extensions.
/// The contextual readings, each a way an omitted-root reading is plausible.
pub open spec fn contextual_rootless_upper(s: FormulaSummary, o: u8) -> bool {
    o & 1 != 0 && o & 2 == 0 && s.tone_count >= (if o & 1 != 0 { 1int } else { 0 }) + (if o & 2 != 0 {
        1int
    } else {
        0
    }) + (if o & 4 != 0 { 1int } else { 0 }) + 4 && !summary_altered_fifth(s) && summary_rootless_upper(s)
}

/// An altered dominant read without root and third.
pub open spec fn contextual_altered_upper(s: FormulaSummary, o: u8) -> bool {
    o & 1 != 0 && o & 2 != 0 && o & 4 == 0 && summary_has_pair(s, (7u8, -1i16)) && summary_has_pair(
        s,
        (9u8, -1i16),
    ) && summary_has_pair(s, (9u8, 1i16)) && summary_has_pair(s, (13u8, -1i16))
}

/// A diminished seventh read without its root.
pub open spec fn contextual_rootless_diminished_seventh(s: FormulaSummary, o: u8) -> bool {
    o == 1 && summary_has_pair(s, (3u8, -1i16)) && summary_has_pair(s, (5u8, -1i16)) && summary_has_pair(
        s,
        (7u8, -2i16),
    )
}

/// A half-diminished seventh read without its root.
pub open spec fn contextual_rootless_half_diminished(s: FormulaSummary, o: u8) -> bool {
    o == 1 && s.tone_count == 4 && summary_has_pair(s, (3u8, -1i16)) && summary_has_pair(s, (5u8, -1i16))
        && summary_has_pair(s, (7u8, -1i16))
}

/// Score taken off readings that context makes plausible.
#[verifier::opaque]
pub open spec fn contextual_adjustment_of(s: FormulaSummary, o: u8) -> int {
    if contextual_altered_upper(s, o) {
        650
    } else if contextual_rootless_half_diminished(s, o) {
        500
    } else if contextual_rootless_diminished_seventh(s, o) {
        420
    } else if contextual_rootless_upper(s, o) {
        if o & 4 != 0 {
            220
        } else {
            100
        }
    } else {
        0
    }
}

fn is_contextual_rootless_upper_alias(summary: FormulaSummary, omissions: u8) -> (b: bool)
    ensures
        b == contextual_rootless_upper(summary, omissions),
{
    omissions & 1 != 0 && omissions & 2 == 0 && (summary.tone_count as usize) >= omission_count(
        omissions,
    ) + 4 && !summary.has_altered_fifth() && summary.supports_rootless_upper_alias()
}

/// An altered dominant read without root and third.
fn is_contextual_altered_upper_alias(summary: FormulaSummary, omissions: u8) -> (b: bool)
    ensures
        b == contextual_altered_upper(summary, omissions),
{
    let pairs: &[(u8, i16)] = &[(7u8, -1i16), (9u8, -1i16), (9u8, 1i16), (13u8, -1i16)];
    let found = summary.has_intervals(pairs);
    assert(pairs@[0] == (7u8, -1i16) && pairs@[1] == (9u8, -1i16) && pairs@[2] == (9u8, 1i16)
        && pairs@[3] == (13u8, -1i16));
    omissions & 1 != 0 && omissions & 2 != 0 && omissions & 4 == 0 && found
}

/// A diminished seventh read without its root.
fn is_contextual_rootless_diminished_seventh_alias(summary: FormulaSummary, omissions: u8) -> (b: bool)
    ensures
        b == contextual_rootless_diminished_seventh(summary, omissions),
{
    let pairs: &[(u8, i16)] = &[(3u8, -1i16), (5u8, -1i16), (7u8, -2i16)];
    let found = summary.has_intervals(pairs);
    assert(pairs@[0] == (3u8, -1i16) && pairs@[1] == (5u8, -1i16) && pairs@[2] == (7u8, -2i16));
    omissions == 1 && found
}

/// A half-diminished seventh read without its root.
fn is_contextual_rootless_half_diminished_alias(summary: FormulaSummary, omissions: u8) -> (b: bool)
    ensures
        b == contextual_rootless_half_diminished(summary, omissions),
{
    let pairs: &[(u8, i16)] = &[(3u8, -1i16), (5u8, -1i16), (7u8, -1i16)];
    let found = summary.has_intervals(pairs);
    assert(pairs@[0] == (3u8, -1i16) && pairs@[1] == (5u8, -1i16) && pairs@[2] == (7u8, -1i16));
    omissions == 1 && summary.tone_count == 4 && found
}

/// Score taken off readings that context makes plausible.
fn contextual_omission_adjustment(summary: FormulaSummary, omissions: u8) -> (a: u32)
    ensures
        a <= 650,
        a == contextual_adjustment_of(summary, omissions),
{
    proof {
        reveal(contextual_adjustment_of);
    }
    if is_contextual_altered_upper_alias(summary, omissions) {
        650
    } else if is_contextual_rootless_half_diminished_alias(summary, omissions) {
        500
    } else if is_contextual_rootless_diminished_seventh_alias(summary, omissions) {
        420
    } else if is_contextual_rootless_upper_alias(summary, omissions) {
        if omissions & 4 != 0 {
            220
        } else {
            100
        }
    } else {
        0
    }
}


/// `a` and `b` agree on their first `k` entries.
pub open spec fn prefix_eq(a: Seq<i64>, b: Seq<i64>, k: int) -> bool {
    forall|j: int| 0 <= j < k ==> a[j] == b[j]
}

/// Lexicographic order on keys: at the first difference `a` is smaller, or
/// `a` is a proper prefix of `b`.
pub open spec fn lex_lt(a: Seq<i64>, b: Seq<i64>) -> bool {
    exists|k: int|
        0 <= k <= a.len() && k <= b.len() && #[trigger] prefix_eq(a, b, k) && ((k < a.len() && k
            < b.len() && a[k] < b[k]) || (k == a.len() && k < b.len()))
}

/// `a` is before `b` or equal to it.
pub open spec fn lex_le(a: Seq<i64>, b: Seq<i64>) -> bool {
    lex_lt(a, b) || a == b
}

/// The lexicographic order is transitive.
pub proof fn lemma_lex_lt_transitive(a: Seq<i64>, b: Seq<i64>, c: Seq<i64>)
    requires
        lex_lt(a, b),
        lex_lt(b, c),
    ensures
        lex_lt(a, c),
{
    let k1 = choose|k: int|
        0 <= k <= a.len() && k <= b.len() && #[trigger] prefix_eq(a, b, k) && ((k < a.len() && k
            < b.len() && a[k] < b[k]) || (k == a.len() && k < b.len()));
    let k2 = choose|k: int|
        0 <= k <= b.len() && k <= c.len() && #[trigger] prefix_eq(b, c, k) && ((k < b.len() && k
            < c.len() && b[k] < c[k]) || (k == b.len() && k < c.len()));
    let k = if k1 < k2 { k1 } else { k2 };
    assert(prefix_eq(a, c, k));
    if k1 < k2 {
        assert(k1 < b.len());
        assert(b[k1] == c[k1]);
    } else if k2 < k1 {
        assert(a[k2] == b[k2]);
    }
}

/// No key is before itself.
pub proof fn lemma_lex_lt_irreflexive(a: Seq<i64>)
    ensures
        !lex_lt(a, a),
{
}

/// A comparison that is not negative rules out `a` sorting before `b`.
proof fn lemma_lex_not_lt(a: Seq<i64>, b: Seq<i64>, r: i8)
    requires
        r >= 0,
        r == 0 ==> a == b,
        r > 0 ==> lex_lt(b, a),
    ensures
        !lex_lt(a, b),
{
    lemma_lex_lt_irreflexive(a);
    if r > 0 && lex_lt(a, b) {
        lemma_lex_lt_transitive(a, b, a);
    }
}

/// `lex_le` is transitive.
pub proof fn lemma_lex_le_transitive(a: Seq<i64>, b: Seq<i64>, c: Seq<i64>)
    requires
        lex_le(a, b),
        lex_le(b, c),
    ensures
        lex_le(a, c),
{
    if lex_lt(a, b) && lex_lt(b, c) {
        lemma_lex_lt_transitive(a, b, c);
    }
}

/// Compares two keys: negative when `a` is before `b`, zero when they are
/// equal, positive when `b` is before `a`.
pub fn compare_keys(a: &Vec<i64>, b: &Vec<i64>) -> (r: i8)
    ensures
        r < 0 ==> lex_lt(a@, b@),
        r == 0 ==> a@ == b@,
        r > 0 ==> lex_lt(b@, a@),
{
    let n = if a.len() < b.len() {
        a.len()
    } else {
        b.len()
    };
    let mut i: usize = 0;
    while i < n
        invariant
            0 <= i <= n,
            n <= a@.len(),
            n <= b@.len(),
            n == a@.len() || n == b@.len(),
            prefix_eq(a@, b@, i as int),
        decreases n - i,
    {
        if a[i] < b[i] {
            assert(prefix_eq(a@, b@, i as int));
            return -1;
        }
        if a[i] > b[i] {
            assert(prefix_eq(b@, a@, i as int));
            return 1;
        }
        i += 1;
    }
    if a.len() < b.len() {
        assert(prefix_eq(a@, b@, n as int));
        -1
    } else if a.len() > b.len() {
        assert(prefix_eq(b@, a@, n as int));
        1
    } else {
        assert(a@ =~= b@);
        0
    }
}

/// One reading of the played pitches: a root and spec with the bass, the
/// omissions it assumes, how the bass is shown, and its score and sort key.
#[derive(Clone, Debug)]
pub struct AnalysisCandidate {
    pub root: NoteName,
    pub spec: ChordSpec,
    pub summary: FormulaSummary,
    pub bass: PitchClass,
    pub omissions: u8,
    pub omitted: bool,
    pub show_chord_tone_bass: bool,
    pub slash_bass: bool,
    pub score: u32,
    pub key: Vec<i64>,
}

/// Whether the bass is written after a slash.
pub open spec fn bass_visible(c: AnalysisCandidate) -> bool {
    c.bass.spec_value() != note_pitch(c.root) && c.show_chord_tone_bass
}

/// Two readings print the same symbol: same root and spec, same omissions
/// other than the fifth, and the same visible bass.
pub open spec fn same_symbol(a: AnalysisCandidate, b: AnalysisCandidate) -> bool {
    &&& a.root == b.root
    &&& a.spec == b.spec
    &&& a.omissions & 3 == b.omissions & 3
    &&& bass_visible(a) == bass_visible(b)
    &&& bass_visible(a) ==> a.bass.spec_value() == b.bass.spec_value()
}

/// Sort-key code of a quality, in declaration order.
pub open spec fn quality_code_of(q: Quality) -> int {
    match q {
        Quality::Major => 0,
        Quality::Minor => 1,
        Quality::Diminished => 2,
        Quality::Augmented => 3,
        Quality::Sus2 => 4,
        Quality::Sus4 => 5,
        Quality::Power => 6,
    }
}

/// Sort-key code of a seventh, in declaration order.
pub open spec fn seventh_code_of(s: Seventh) -> int {
    match s {
        Seventh::Absent => 0,
        Seventh::Minor => 1,
        Seventh::Major => 2,
        Seventh::Diminished => 3,
    }
}

/// Sort-key code of an optional extension: none first.
pub open spec fn extension_code_of(e: Option<Extension>) -> int {
    match e {
        None => 0,
        Some(Extension::Ninth) => 1,
        Some(Extension::Eleventh) => 2,
        Some(Extension::Thirteenth) => 3,
    }
}

/// Sort-key code of a quality, in declaration order.
fn quality_code(q: Quality) -> (c: i64)
    ensures
        c == quality_code_of(q),
{
    match q {
        Quality::Major => 0,
        Quality::Minor => 1,
        Quality::Diminished => 2,
        Quality::Augmented => 3,
        Quality::Sus2 => 4,
        Quality::Sus4 => 5,
        Quality::Power => 6,
    }
}

/// Sort-key code of a seventh, in declaration order.
fn seventh_code(s: Seventh) -> (c: i64)
    ensures
        c == seventh_code_of(s),
{
    match s {
        Seventh::Absent => 0,
        Seventh::Minor => 1,
        Seventh::Major => 2,
        Seventh::Diminished => 3,
    }
}

/// Sort-key code of an optional extension: none first.
fn extension_code(e: Option<Extension>) -> (c: i64)
    ensures
        c == extension_code_of(e),
{
    match e {
        None => 0,
        Some(Extension::Ninth) => 1,
        Some(Extension::Eleventh) => 2,
        Some(Extension::Thirteenth) => 3,
    }
}

/// Sort key of a reading: score, then the symbol's parts. Each list ends in
/// 0, below every entry, so a shorter list sorts first.
fn candidate_key(
    root: NoteName,
    spec: &ChordSpec,
    bass: PitchClass,
    omissions: u8,
    omitted: bool,
    show_chord_tone_bass: bool,
    slash_bass: bool,
    score: u32,
) -> (key: Vec<i64>)
    ensures
        key@.len() > 0,
        key@[0] == score,
{
    let mut key: Vec<i64> = Vec::new();
    key.push(score as i64);
    key.push(root.letter.index() as i64);
    key.push(root.accidental as i64);
    key.push(quality_code(spec.quality));
    key.push(seventh_code(spec.seventh));
    key.push(extension_code(spec.extension));
    key.push(if spec.sixth { 1 } else { 0 });
    key.push(if spec.alt { 1 } else { 0 });
    let adds = spec.adds();
    let mut i: usize = 0;
    while i < adds.len()
        invariant
            0 <= i <= adds@.len(),
            key@.len() > 0,
            key@[0] == score,
        decreases adds@.len() - i,
    {
        key.push(adds[i] as i64);
        i += 1;
    }
    key.push(0);
    let alterations = spec.alterations();
    let mut i: usize = 0;
    while i < alterations.len()
        invariant
            0 <= i <= alterations@.len(),
            key@.len() > 0,
            key@[0] == score,
        decreases alterations@.len() - i,
    {
        let a = alterations[i];
        key.push(a.degree as i64 * 8 + a.accidental as i64 + 4);
        i += 1;
    }
    key.push(0);
    let spec_omissions = spec.omissions();
    let mut i: usize = 0;
    while i < spec_omissions.len()
        invariant
            0 <= i <= spec_omissions@.len(),
            key@.len() > 0,
            key@[0] == score,
        decreases spec_omissions@.len() - i,
    {
        key.push(spec_omissions[i] as i64);
        i += 1;
    }
    key.push(0);
    key.push(bass.value() as i64);
    if omissions & 1 != 0 {
        key.push(1);
    }
    if omissions & 2 != 0 {
        key.push(2);
    }
    if omissions & 4 != 0 {
        key.push(3);
    }
    key.push(0);
    key.push(if omitted { 1 } else { 0 });
    key.push(if show_chord_tone_bass { 1 } else { 0 });
    key.push(if slash_bass { 1 } else { 0 });
    key
}

/// Builds a reading and scores it.
/// A reading's base score: [`analysis_score_of`] plus the costs of its
/// omissions.
pub open spec fn candidate_base_of(
    root: NoteName,
    spec: ChordSpec,
    summary: FormulaSummary,
    bass: int,
    omissions: u8,
    omitted: bool,
    show_chord_tone_bass: bool,
) -> int {
    analysis_score_of(root, spec, summary, bass, omitted, show_chord_tone_bass) + (if omissions & 1 != 0 {
        omission_score_of(InferredOmission::Root, summary)
    } else {
        0
    }) + (if omissions & 2 != 0 {
        omission_score_of(InferredOmission::Third, summary)
    } else {
        0
    }) + (if omissions & 4 != 0 {
        omission_score_of(InferredOmission::Fifth, summary)
    } else {
        0
    })
}

/// The bonus for a rooted extended chord read with only its fifth omitted.
pub open spec fn fifth_omitted_bonus_of(summary: FormulaSummary, omitted: bool, omissions: u8, slash_bass: bool) -> int {
    if !slash_bass && omitted && omissions == 4 && summary_degree(summary, 3) && summary_degree(summary, 7) && (
    summary_degree(summary, 9) || summary_degree(summary, 13)) && !summary_altered_fifth(summary) {
        160
    } else {
        0
    }
}

/// The bonus for a rooted seventh chord read with only its third omitted.
pub open spec fn third_omitted_bonus_of(root: NoteName, bass: int, summary: FormulaSummary, omitted: bool, omissions: u8) -> int {
    if omitted && bass == note_pitch(root) && omissions == 2 && summary_degree(summary, 7)
        && !summary_altered_fifth(summary) {
        180
    } else {
        0
    }
}

/// The score of a reading: its base score less the omission bonuses and
/// the contextual adjustment, then moved for a slash bass that is not a
/// chord tone.
#[verifier::opaque]
pub open spec fn candidate_score_of(
    root: NoteName,
    spec: ChordSpec,
    summary: FormulaSummary,
    bass: int,
    omissions: u8,
    omitted: bool,
    show_chord_tone_bass: bool,
    slash_bass: bool,
) -> int {
    let base = candidate_base_of(root, spec, summary, bass, omissions, omitted, show_chord_tone_bass);
    let adjusted = sat_sub(
        sat_sub(
            sat_sub(base, fifth_omitted_bonus_of(summary, omitted, omissions, slash_bass)),
            third_omitted_bonus_of(root, bass, summary, omitted, omissions),
        ),
        contextual_adjustment_of(summary, omissions),
    );
    let interval = (bass + 12 - note_pitch(root)) % 12;
    if !slash_bass {
        adjusted
    } else if !omitted {
        sat_sub(adjusted, exact_slash_bass_offset_of(spec)) + exact_slash_bass_penalty_of(interval)
    } else if interval == 2 && omissions == 4 {
        sat_sub(adjusted, 520)
    } else if (interval == 1 || interval == 3 || interval == 6 || interval == 8) && omissions == 4 {
        sat_sub(adjusted, 400)
    } else if interval == 5 {
        adjusted + 220
    } else {
        adjusted + 260
    }
}

/// A reading's score and the head of its sort key are those its parts give.
pub open spec fn reading_scored(c: AnalysisCandidate) -> bool {
    &&& c.score == candidate_score_of(
        c.root,
        c.spec,
        c.summary,
        c.bass.spec_value() as int,
        c.omissions,
        c.omitted,
        c.show_chord_tone_bass,
        c.slash_bass,
    )
    &&& c.key@.len() > 0
    &&& c.key@[0] == c.score
}

#[verifier::rlimit(80)]
fn new_candidate(
    root: NoteName,
    spec: &ChordSpec,
    summary: FormulaSummary,
    bass: PitchClass,
    omissions: u8,
    omitted: bool,
    show_chord_tone_bass: bool,
    slash_bass: bool,
) -> (c: AnalysisCandidate)
    requires
        summary_wf(summary),
        -2 <= root.accidental <= 2,
        omissions < 8,
    ensures
        c.root == root,
        c.spec == *spec,
        c.bass == bass,
        c.omissions == omissions,
        c.omitted == omitted,
        c.show_chord_tone_bass == show_chord_tone_bass,
        c.slash_bass == slash_bass,
        c.key@.len() > 0,
        c.key@[0] == c.score,
        -2 <= c.root.accidental <= 2,
        summary_wf(c.summary),
        c.summary == summary,
        reading_scored(c),
{
    let mut score = analysis_score(root, spec, summary, bass, omitted, show_chord_tone_bass);
    if omissions & 1 != 0 {
        score += omission_score(InferredOmission::Root, summary);
    }
    if omissions & 2 != 0 {
        score += omission_score(InferredOmission::Third, summary);
    }
    if omissions & 4 != 0 {
        score += omission_score(InferredOmission::Fifth, summary);
    }
    assert(score == candidate_base_of(root, *spec, summary, bass.spec_value() as int, omissions, omitted, show_chord_tone_bass));
    score = score.saturating_sub(
        rooted_extension_omitted_fifth_bonus(summary, omitted, omissions, slash_bass),
    );
    score = score.saturating_sub(
        rooted_seventh_omitted_third_bonus(root, bass, summary, omitted, omissions),
    );
    score = score.saturating_sub(contextual_omission_adjustment(summary, omissions));
    let ghost adjusted = score as int;
    if slash_bass {
        let interval = slash_bass_interval(root, bass);
        let only_fifth_omitted = omissions == 4;
        score = if !omitted {
            score.saturating_sub(exact_slash_bass_offset(spec)).saturating_add(
                exact_slash_bass_penalty(interval),
            )
        } else if interval == 2 && only_fifth_omitted {
            score.saturating_sub(520)
        } else if (interval == 1 || interval == 3 || interval == 6 || interval == 8)
            && only_fifth_omitted {
            score.saturating_sub(400)
        } else if interval == 5 {
            score.saturating_add(220)
        } else {
            score.saturating_add(260)
        };
    }
    proof {
        reveal(candidate_score_of);
        assert(adjusted == sat_sub(
            sat_sub(
                sat_sub(
                    candidate_base_of(root, *spec, summary, bass.spec_value() as int, omissions, omitted, show_chord_tone_bass),
                    fifth_omitted_bonus_of(summary, omitted, omissions, slash_bass),
                ),
                third_omitted_bonus_of(root, bass.spec_value() as int, summary, omitted, omissions),
            ),
            contextual_adjustment_of(summary, omissions),
        ));
    }
    let key = candidate_key(
        root,
        spec,
        bass,
        omissions,
        omitted,
        show_chord_tone_bass,
        slash_bass,
        score,
    );
    AnalysisCandidate {
        root,
        spec: *spec,
        summary,
        bass,
        omissions,
        omitted,
        show_chord_tone_bass,
        slash_bass,
        score,
        key,
    }
}

/// Whether two readings print the same symbol.
fn same_analysis_symbol(a: &AnalysisCandidate, b: &AnalysisCandidate) -> (r: bool)
    ensures
        r == same_symbol(*a, *b),
{
    let a_visible = a.bass.value() != a.root.pitch_class().value() && a.show_chord_tone_bass;
    let b_visible = b.bass.value() != b.root.pitch_class().value() && b.show_chord_tone_bass;
    a.root == b.root && a.spec == b.spec && a.omissions & 3 == b.omissions & 3 && a_visible
        == b_visible && (!a_visible || a.bass.value() == b.bass.value())
}

/// The readings kept after offering `c` to `items`: a reading of the same
/// symbol gives way when `c` sorts before it; else `c` takes a free place;
/// else it pushes out the last reading when it sorts before that one.
pub open spec fn considered(items: Seq<AnalysisCandidate>, c: AnalysisCandidate) -> vstd::multiset::Multiset<
    AnalysisCandidate,
> {
    if exists|i: int| 0 <= i < items.len() && same_symbol(#[trigger] items[i], c) {
        let i = choose|i: int| 0 <= i < items.len() && same_symbol(#[trigger] items[i], c);
        if lex_lt(c.key@, items[i].key@) {
            items.remove(i).to_multiset().insert(c)
        } else {
            items.to_multiset()
        }
    } else if items.len() < MAX_IDENTIFY_ANALYSES {
        items.to_multiset().insert(c)
    } else if lex_lt(c.key@, items.last().key@) {
        items.drop_last().to_multiset().insert(c)
    } else {
        items.to_multiset()
    }
}

/// The best readings, at most one per printed symbol, in key order.
pub struct AnalysisCandidateSet {
    pub items: Vec<AnalysisCandidate>,
}

impl AnalysisCandidateSet {
    /// Sorted by key, one reading per symbol, at most the cap.
    pub open spec fn wf(&self) -> bool {
        &&& self.items@.len() <= MAX_IDENTIFY_ANALYSES
        &&& forall|i: int, j: int|
            0 <= i < j < self.items@.len() ==> lex_le(
                #[trigger] self.items@[i].key@,
                #[trigger] self.items@[j].key@,
            )
        &&& forall|i: int, j: int|
            0 <= i < self.items@.len() && 0 <= j < self.items@.len() && i != j ==> !same_symbol(
                #[trigger] self.items@[i],
                #[trigger] self.items@[j],
            )
        &&& forall|i: int|
            0 <= i < self.items@.len() ==> -2 <= (#[trigger] self.items@[i]).root.accidental <= 2
                && summary_wf(self.items@[i].summary) && self.items@[i].omissions < 8
    }

    /// The empty set.
    pub fn new() -> (s: Self)
        ensures
            s.wf(),
            s.items@.len() == 0,
    {
        AnalysisCandidateSet { items: Vec::new() }
    }

    /// Position of the first reading after which `c` does not sort.
    fn insertion_index(&self, c: &AnalysisCandidate) -> (pos: usize)
        requires
            self.wf(),
        ensures
            pos <= self.items@.len(),
            forall|i: int| 0 <= i < pos ==> lex_le(#[trigger] self.items@[i].key@, c.key@),
            pos < self.items@.len() ==> lex_lt(c.key@, self.items@[pos as int].key@),
    {
        let mut pos: usize = 0;
        while pos < self.items.len()
            invariant
                0 <= pos <= self.items@.len(),
                forall|i: int| 0 <= i < pos ==> lex_le(#[trigger] self.items@[i].key@, c.key@),
            decreases self.items@.len() - pos,
        {
            let r = compare_keys(&c.key, &self.items[pos].key);
            if r < 0 {
                return pos;
            }
            pos += 1;
        }
        pos
    }

    /// Inserts `c` in key order.
    fn insert_sorted(&mut self, c: AnalysisCandidate)
        requires
            old(self).wf(),
            old(self).items@.len() < MAX_IDENTIFY_ANALYSES,
            forall|i: int| 0 <= i < old(self).items@.len() ==> !same_symbol(#[trigger] old(self).items@[i], c),
            -2 <= c.root.accidental <= 2,
            summary_wf(c.summary),
            c.omissions < 8,
        ensures
            final(self).wf(),
            final(self).items@.len() == old(self).items@.len() + 1,
            final(self).items@.to_multiset() == old(self).items@.to_multiset().insert(c),
    {
        let pos = self.insertion_index(&c);
        let ghost old_items = self.items@;
        self.items.insert(pos, c);
        proof {
            let items = self.items@;
            vstd::seq_lib::to_multiset_insert(old_items, pos as int, c);
            assert(items[pos as int] == c);
            assert forall|i: int, j: int| 0 <= i < j < items.len() implies lex_le(
                #[trigger] items[i].key@,
                #[trigger] items[j].key@,
            ) by {
                if j < pos {
                    assert(items[i] == old_items[i] && items[j] == old_items[j]);
                } else if j == pos {
                    assert(items[i] == old_items[i]);
                } else if i == pos {
                    assert(items[j] == old_items[j - 1]);
                    if pos < old_items.len() {
                        assert(lex_lt(c.key@, old_items[pos as int].key@));
                        if j - 1 > pos {
                            assert(lex_le(old_items[pos as int].key@, old_items[j - 1].key@));
                            lemma_lex_le_transitive(c.key@, old_items[pos as int].key@, old_items[j - 1].key@);
                        }
                    }
                } else if i < pos {
                    assert(items[i] == old_items[i] && items[j] == old_items[j - 1]);
                } else {
                    assert(items[i] == old_items[i - 1] && items[j] == old_items[j - 1]);
                }
            }
            assert forall|i: int, j: int|
                0 <= i < items.len() && 0 <= j < items.len() && i != j implies !same_symbol(
                #[trigger] items[i],
                #[trigger] items[j],
            ) by {
                let oi = if i < pos { i } else { i - 1 };
                let oj = if j < pos { j } else { j - 1 };
                if i == pos {
                    assert(items[j] == old_items[oj]);
                } else if j == pos {
                    assert(items[i] == old_items[oi]);
                } else {
                    assert(items[i] == old_items[oi] && items[j] == old_items[oj]);
                }
            }
            assert forall|i: int| 0 <= i < items.len() implies -2 <= (#[trigger] items[i]).root.accidental <= 2
                && summary_wf(items[i].summary) && items[i].omissions < 8 by {
                if i < pos {
                    assert(items[i] == old_items[i]);
                } else if i > pos {
                    assert(items[i] == old_items[i - 1]);
                }
            }
        }
    }

    /// Removes the reading at `pos`.
    fn remove_at(&mut self, pos: usize)
        requires
            old(self).wf(),
            pos < old(self).items@.len(),
        ensures
            final(self).wf(),
            final(self).items@ == old(self).items@.remove(pos as int),
    {
        let ghost old_items = self.items@;
        let _ = self.items.remove(pos);
        proof {
            let items = self.items@;
            assert forall|i: int, j: int| 0 <= i < j < items.len() implies lex_le(
                #[trigger] items[i].key@,
                #[trigger] items[j].key@,
            ) by {
                let oi = if i < pos { i } else { i + 1 };
                let oj = if j < pos { j } else { j + 1 };
                assert(items[i] == old_items[oi] && items[j] == old_items[oj]);
            }
            assert forall|i: int, j: int|
                0 <= i < items.len() && 0 <= j < items.len() && i != j implies !same_symbol(
                #[trigger] items[i],
                #[trigger] items[j],
            ) by {
                let oi = if i < pos { i } else { i + 1 };
                let oj = if j < pos { j } else { j + 1 };
                assert(items[i] == old_items[oi] && items[j] == old_items[oj]);
            }
            assert forall|i: int| 0 <= i < items.len() implies -2 <= (#[trigger] items[i]).root.accidental <= 2
                && summary_wf(items[i].summary) && items[i].omissions < 8 by {
                let oi = if i < pos { i } else { i + 1 };
                assert(items[i] == old_items[oi]);
            }
        }
    }

    /// Offers a reading: it replaces a worse reading of the same symbol, or
    /// takes a free place, or pushes out the worst reading when it is better.
    pub fn consider(&mut self, c: AnalysisCandidate)
        requires
            old(self).wf(),
            -2 <= c.root.accidental <= 2,
            summary_wf(c.summary),
            c.omissions < 8,
        ensures
            final(self).wf(),
            final(self).items@.to_multiset() == considered(old(self).items@, c),
    {
        let n = self.items.len();
        let mut idx: usize = 0;
        while idx < n
            invariant
                0 <= idx <= n,
                n == self.items@.len(),
                self.wf(),
                self.items@ == old(self).items@,
                -2 <= c.root.accidental <= 2,
                summary_wf(c.summary),
                c.omissions < 8,
                forall|i: int| 0 <= i < idx ==> !same_symbol(#[trigger] self.items@[i], c),
            decreases n - idx,
        {
            if same_analysis_symbol(&self.items[idx], &c) {
                proof {
                    let k = choose|i: int| 0 <= i < n && same_symbol(#[trigger] self.items@[i], c);
                    if k != idx {
                        assert(same_symbol(self.items@[k], self.items@[idx as int]));
                    }
                }
                let r = compare_keys(&c.key, &self.items[idx].key);
                if r < 0 {
                    let ghost before = self.items@;
                    self.remove_at(idx);
                    proof {
                        vstd::seq_lib::to_multiset_remove(before, idx as int);
                    }
                    proof {
                        let items = self.items@;
                        assert forall|i: int| 0 <= i < items.len() implies !same_symbol(#[trigger] items[i], c) by {
                            let oi = if i < idx { i } else { i + 1 };
                            assert(items[i] == before[oi]);
                            assert(oi != idx as int);
                            assert(same_symbol(before[idx as int], c));
                            assert(!same_symbol(before[oi], before[idx as int]));
                        }
                    }
                    self.insert_sorted(c);
                } else {
                    proof {
                        lemma_lex_not_lt(c.key@, self.items@[idx as int].key@, r);
                    }
                }
                return;
            }
            idx += 1;
        }
        if n == MAX_IDENTIFY_ANALYSES {
            let r = compare_keys(&c.key, &self.items[n - 1].key);
            if r >= 0 {
                proof {
                    lemma_lex_not_lt(c.key@, self.items@[n - 1].key@, r);
                }
                return;
            }
            let ghost before = self.items@;
            self.remove_at(n - 1);
            proof {
                assert(before.remove(n - 1) == before.drop_last());
                let items = self.items@;
                assert forall|i: int| 0 <= i < items.len() implies !same_symbol(#[trigger] items[i], c) by {
                    assert(items[i] == old(self).items@[i]);
                }
            }
        }
        self.insert_sorted(c);
    }
}


/// Spells a bass that is not a chord tone by its letter distance above the root.
/// Letter steps from a root to a slash bass `interval` semitones above it.
pub open spec fn slash_steps(interval: int) -> int {
    if interval == 0 {
        0
    } else if interval <= 2 {
        1
    } else if interval <= 4 {
        2
    } else if interval == 5 {
        3
    } else if interval <= 7 {
        4
    } else if interval <= 9 {
        5
    } else {
        6
    }
}

/// The spelling of a slash bass that is not a chord tone: on the letter as
/// many steps above the root as the interval suggests, or its simple
/// spelling where that letter needs more than two accidentals.
pub open spec fn slash_bass_name_of(root: NoteName, bass: int) -> NoteName {
    let letter = letter_at(letter_index(root.letter) + slash_steps((bass + 12 - note_pitch(root)) % 12));
    let a = spelled_accidental(letter, bass);
    if -2 <= a <= 2 {
        NoteName { letter, accidental: a as i8 }
    } else if flat_pitch(bass) {
        flat_name(bass)
    } else {
        sharp_name(bass)
    }
}

fn slash_bass_name(root: NoteName, bass: PitchClass) -> (n: NoteName)
    ensures
        note_pitch(n) == bass.spec_value(),
        -2 <= n.accidental <= 2,
        n == slash_bass_name_of(root, bass.spec_value() as int),
{
    let interval = slash_bass_interval(root, bass);
    let steps: u8 = if interval == 0 {
        0
    } else if interval <= 2 {
        1
    } else if interval <= 4 {
        2
    } else if interval == 5 {
        3
    } else if interval <= 7 {
        4
    } else if interval <= 9 {
        5
    } else {
        6
    };
    let note = NoteName::spell_for_pitch(root.letter.advance(steps), bass);
    if -2 <= note.accidental && note.accidental <= 2 {
        note
    } else {
        NoteName::simple_for_pitch(bass, prefer_flat_pitch(bass))
    }
}

/// Adds `spec` to `specs` when it is a valid, non-redundant descriptor.
/// A spec the identification grammar lists: well formed, accepted by the
/// descriptor rules, and with no alteration that is omitted or restates a
/// stacked tone.
pub open spec fn candidate_spec_ok(spec: ChordSpec) -> bool {
    spec.wf() && descriptor_valid(spec) && !redundant_alteration(spec) && !omitted_alteration(spec)
}

fn push_candidate_spec(specs: &mut Vec<ChordSpec>, spec: ChordSpec)
    requires
        spec.wf(),
        forall|i: int| 0 <= i < old(specs)@.len() ==> candidate_spec_ok(#[trigger] old(specs)@[i]),
    ensures
        forall|i: int| 0 <= i < final(specs)@.len() ==> candidate_spec_ok(#[trigger] final(specs)@[i]),
        candidate_spec_ok(spec) ==> final(specs)@ == old(specs)@.push(spec),
        !candidate_spec_ok(spec) ==> final(specs)@ == old(specs)@,
{
    if validate_descriptor(&spec).is_ok() && !has_redundant_alteration(&spec)
        && !has_omitted_alteration(&spec) {
        specs.push(spec);
    }
}

/// How many ninth alterations are tried: none alone over a ninth chord,
/// else none, flat and sharp.
pub open spec fn nine_choices(extension: Option<Extension>) -> int {
    if extension == Some(Extension::Ninth) {
        1
    } else {
        3
    }
}

/// How many eleventh alterations are tried: none, or also sharp.
pub open spec fn eleven_choices(extension: Option<Extension>) -> int {
    if extension == Some(Extension::Eleventh) {
        1
    } else {
        2
    }
}

/// How many thirteenth alterations are tried: none, or also flat.
pub open spec fn thirteen_choices(extension: Option<Extension>) -> int {
    if extension == Some(Extension::Thirteenth) {
        1
    } else {
        2
    }
}

/// The mask with fifth choice `a` (none, b5, #5), ninth choice `b` (none,
/// b9, #9), `#11` when `c` is 1 and `b13` when `d` is 1.
pub open spec fn alteration_mask(a: int, b: int, c: int, d: int) -> u16 {
    (if a == 1 {
        2u16
    } else if a == 2 {
        4u16
    } else {
        0u16
    }) | (if b == 1 {
        32u16
    } else if b == 2 {
        64u16
    } else {
        0u16
    }) | (if c == 1 {
        1024u16
    } else {
        0u16
    }) | (if d == 1 {
        8192u16
    } else {
        0u16
    })
}

/// Masks for fifth `a`, ninth `b`, eleventh `c` and thirteenth choices `0..k`.
pub open spec fn masks_for_eleven(a: int, b: int, c: int, k: int) -> Seq<u16>
    decreases k,
{
    if k <= 0 {
        seq![]
    } else {
        masks_for_eleven(a, b, c, k - 1).push(alteration_mask(a, b, c, k - 1))
    }
}

/// Masks for fifth `a`, ninth `b` and eleventh choices `0..k`.
pub open spec fn masks_for_nine(extension: Option<Extension>, a: int, b: int, k: int) -> Seq<u16>
    decreases k,
{
    if k <= 0 {
        seq![]
    } else {
        masks_for_nine(extension, a, b, k - 1) + masks_for_eleven(a, b, k - 1, thirteen_choices(extension))
    }
}

/// Masks for fifth `a` and ninth choices `0..k`.
pub open spec fn masks_for_five(extension: Option<Extension>, a: int, k: int) -> Seq<u16>
    decreases k,
{
    if k <= 0 {
        seq![]
    } else {
        masks_for_five(extension, a, k - 1) + masks_for_nine(extension, a, k - 1, eleven_choices(extension))
    }
}

/// Masks for fifth choices `0..k`, each choice running through the others
/// in order.
pub open spec fn masks_upto(extension: Option<Extension>, k: int) -> Seq<u16>
    decreases k,
{
    if k <= 0 {
        seq![]
    } else {
        masks_upto(extension, k - 1) + masks_for_five(extension, k - 1, nine_choices(extension))
    }
}

/// Alteration sets with at most one alteration per degree, leaving out the
/// degree of `extension`.
fn alteration_masks(extension: Option<Extension>) -> (v: Vec<u16>)
    ensures
        v@ == masks_upto(extension, 3),
{
    let fives: [u16; 3] = [0, 1u16 << 1u16, 1u16 << 2u16];
    let nines: [u16; 3] = [0, 1u16 << 5u16, 1u16 << 6u16];
    let nine_count: usize = if extension == Some(Extension::Ninth) {
        1
    } else {
        3
    };
    let eleven_count: usize = if extension == Some(Extension::Eleventh) {
        1
    } else {
        2
    };
    let thirteen_count: usize = if extension == Some(Extension::Thirteenth) {
        1
    } else {
        2
    };
    proof {
        assert((1u16 << 1u16) == 2u16 && (1u16 << 2u16) == 4u16 && (1u16 << 5u16) == 32u16 && (1u16 << 6u16)
            == 64u16) by (bit_vector);
        assert(fives@ =~= seq![0u16, 2u16, 4u16]);
        assert(nines@ =~= seq![0u16, 32u16, 64u16]);
    }
    let mut v: Vec<u16> = Vec::new();
    let mut a: usize = 0;
    while a < 3
        invariant
            0 <= a <= 3,
            fives@ == seq![0u16, 2u16, 4u16],
            nines@ == seq![0u16, 32u16, 64u16],
            nine_count == nine_choices(extension),
            eleven_count == eleven_choices(extension),
            thirteen_count == thirteen_choices(extension),
            v@ == masks_upto(extension, a as int),
        decreases 3 - a,
    {
        let mut b: usize = 0;
        while b < nine_count
            invariant
                0 <= b <= nine_count <= 3,
                a < 3,
                fives@ == seq![0u16, 2u16, 4u16],
                nines@ == seq![0u16, 32u16, 64u16],
                nine_count == nine_choices(extension),
                eleven_count == eleven_choices(extension),
                thirteen_count == thirteen_choices(extension),
                v@ == masks_upto(extension, a as int) + masks_for_five(extension, a as int, b as int),
            decreases nine_count - b,
        {
            let mut c: usize = 0;
            while c < eleven_count
                invariant
                    0 <= c <= eleven_count <= 2,
                    a < 3,
                    b < 3,
                    b < nine_count,
                    fives@ == seq![0u16, 2u16, 4u16],
                    nines@ == seq![0u16, 32u16, 64u16],
                    nine_count == nine_choices(extension),
                    eleven_count == eleven_choices(extension),
                    thirteen_count == thirteen_choices(extension),
                    v@ == masks_upto(extension, a as int) + masks_for_five(extension, a as int, b as int)
                        + masks_for_nine(extension, a as int, b as int, c as int),
                decreases eleven_count - c,
            {
                let mut d: usize = 0;
                while d < thirteen_count
                    invariant
                        0 <= d <= thirteen_count <= 2,
                        a < 3,
                        b < 3,
                        c < 2,
                        c < eleven_count,
                        fives@ == seq![0u16, 2u16, 4u16],
                        nines@ == seq![0u16, 32u16, 64u16],
                        thirteen_count == thirteen_choices(extension),
                        v@ == masks_upto(extension, a as int) + masks_for_five(extension, a as int, b as int)
                            + masks_for_nine(extension, a as int, b as int, c as int) + masks_for_eleven(
                            a as int,
                            b as int,
                            c as int,
                            d as int,
                        ),
                    decreases thirteen_count - d,
                {
                    let eleven: u16 = if c == 1 {
                        1u16 << 10u16
                    } else {
                        0
                    };
                    let thirteen: u16 = if d == 1 {
                        1u16 << 13u16
                    } else {
                        0
                    };
                    let m = fives[a] | nines[b] | eleven | thirteen;
                    proof {
                        assert(eleven == (if c == 1 { 1024u16 } else { 0u16 })) by (bit_vector)
                            requires eleven == (if c == 1 { 1u16 << 10u16 } else { 0u16 });
                        assert(thirteen == (if d == 1 { 8192u16 } else { 0u16 })) by (bit_vector)
                            requires thirteen == (if d == 1 { 1u16 << 13u16 } else { 0u16 });
                    }
                    assert(m == alteration_mask(a as int, b as int, c as int, d as int));
                    v.push(m);
                    proof {
                        assert(v@ =~= masks_upto(extension, a as int) + masks_for_five(extension, a as int, b as int)
                            + masks_for_nine(extension, a as int, b as int, c as int) + masks_for_eleven(
                            a as int,
                            b as int,
                            c as int,
                            d + 1,
                        ));
                    }
                    d += 1;
                }
                proof {
                    assert(v@ =~= masks_upto(extension, a as int) + masks_for_five(extension, a as int, b as int)
                        + masks_for_nine(extension, a as int, b as int, c + 1));
                }
                c += 1;
            }
            proof {
                assert(v@ =~= masks_upto(extension, a as int) + masks_for_five(extension, a as int, b + 1));
            }
            b += 1;
        }
        proof {
            assert(v@ =~= masks_upto(extension, a + 1));
        }
        a += 1;
    }
    v
}

/// Pushes `spec` once with each alteration set of `masks`.
/// `spec` with its alterations replaced by `mask`.
pub open spec fn with_alterations(spec: ChordSpec, mask: u16) -> ChordSpec {
    ChordSpec { alteration_bits: mask, ..spec }
}

/// `spec` under each of the first `k` masks, in order, where the result is
/// a usable candidate.
pub open spec fn altered_specs(spec: ChordSpec, masks: Seq<u16>, k: int) -> Seq<ChordSpec>
    decreases k,
{
    if k <= 0 {
        seq![]
    } else {
        altered_specs(spec, masks, k - 1) + if candidate_spec_ok(with_alterations(spec, masks[k - 1])) {
            seq![with_alterations(spec, masks[k - 1])]
        } else {
            seq![]
        }
    }
}

fn push_altered_specs(specs: &mut Vec<ChordSpec>, spec: ChordSpec, masks: &Vec<u16>)
    requires
        spec.wf(),
        forall|i: int| 0 <= i < old(specs)@.len() ==> candidate_spec_ok(#[trigger] old(specs)@[i]),
    ensures
        forall|i: int| 0 <= i < final(specs)@.len() ==> candidate_spec_ok(#[trigger] final(specs)@[i]),
        final(specs)@ == old(specs)@ + altered_specs(spec, masks@, masks@.len() as int),
{
    let mut i: usize = 0;
    while i < masks.len()
        invariant
            0 <= i <= masks@.len(),
            spec.wf(),
            forall|i: int| 0 <= i < specs@.len() ==> candidate_spec_ok(#[trigger] specs@[i]),
            specs@ == old(specs)@ + altered_specs(spec, masks@, i as int),
        decreases masks@.len() - i,
    {
        let mut altered = spec;
        altered.alteration_bits = masks[i];
        push_candidate_spec(specs, altered);
        proof {
            assert(altered == with_alterations(spec, masks@[i as int]));
            assert(specs@ =~= old(specs)@ + altered_specs(spec, masks@, i + 1));
        }
        i += 1;
    }
}

/// `spec` alone where it is a usable candidate, else nothing.
pub open spec fn kept(spec: ChordSpec) -> Seq<ChordSpec> {
    if candidate_spec_ok(spec) {
        seq![spec]
    } else {
        seq![]
    }
}

/// The plain triad, or power chord, of quality `q`.
pub open spec fn plain_spec(q: Quality) -> ChordSpec {
    ChordSpec {
        quality: q,
        seventh: Seventh::Absent,
        extension: None,
        sixth: false,
        alt: false,
        add_bits: 0,
        alteration_bits: 0,
        omission_bits: 0,
    }
}

/// The quality tried at place `i`.
pub open spec fn quality_at(i: int) -> Quality {
    if i == 0 {
        Quality::Major
    } else if i == 1 {
        Quality::Minor
    } else if i == 2 {
        Quality::Diminished
    } else if i == 3 {
        Quality::Augmented
    } else if i == 4 {
        Quality::Sus2
    } else if i == 5 {
        Quality::Sus4
    } else {
        Quality::Power
    }
}

/// The extension tried at place `e`.
pub open spec fn extension_at(e: int) -> Extension {
    if e == 0 {
        Extension::Ninth
    } else if e == 1 {
        Extension::Eleventh
    } else {
        Extension::Thirteenth
    }
}

/// `base` with each of the first `k` added degrees (9, 11, 13) alone.
pub open spec fn added_specs(base: ChordSpec, k: int) -> Seq<ChordSpec>
    decreases k,
{
    if k <= 0 {
        seq![]
    } else {
        added_specs(base, k - 1) + kept(
            ChordSpec {
                add_bits: if k - 1 == 0 {
                    1u16
                } else if k - 1 == 1 {
                    2u16
                } else {
                    4u16
                },
                ..base
            },
        )
    }
}

/// The seventh tried at place `k` over quality `q`.
pub open spec fn seventh_at(q: Quality, k: int) -> Seventh {
    if q == Quality::Diminished {
        Seventh::Diminished
    } else if k == 0 {
        Seventh::Minor
    } else {
        Seventh::Major
    }
}

/// `seventh_spec` with each of the first `e` extensions, each followed by
/// its altered forms.
pub open spec fn extended_specs(seventh_spec: ChordSpec, e: int) -> Seq<ChordSpec>
    decreases e,
{
    if e <= 0 {
        seq![]
    } else {
        let extended = ChordSpec { extension: Some(extension_at(e - 1)), ..seventh_spec };
        let masks = masks_upto(Some(extension_at(e - 1)), 3);
        extended_specs(seventh_spec, e - 1) + kept(extended) + altered_specs(extended, masks, masks.len() as int)
    }
}

/// The first `k` sevenths over `base`, each followed by its extensions and
/// its altered forms.
pub open spec fn seventh_specs(base: ChordSpec, k: int) -> Seq<ChordSpec>
    decreases k,
{
    if k <= 0 {
        seq![]
    } else {
        let seventh_spec = ChordSpec { seventh: seventh_at(base.quality, k - 1), ..base };
        let plain = masks_upto(None, 3);
        seventh_specs(base, k - 1) + kept(seventh_spec) + extended_specs(seventh_spec, 3) + altered_specs(
            seventh_spec,
            plain,
            plain.len() as int,
        )
    }
}

/// Everything tried over quality `q`: the plain chord, then, but for power
/// chords, `alt` over major, the added degrees, the sixths over major and
/// minor, and the sevenths.
pub open spec fn quality_specs(q: Quality) -> Seq<ChordSpec> {
    let base = plain_spec(q);
    kept(base) + if q != Quality::Power {
        (if q == Quality::Major {
            kept(ChordSpec { alt: true, ..base })
        } else {
            seq![]
        }) + added_specs(base, 3) + (if q == Quality::Major || q == Quality::Minor {
            kept(ChordSpec { sixth: true, ..base }) + kept(ChordSpec { sixth: true, add_bits: 1, ..base })
        } else {
            seq![]
        }) + seventh_specs(
            base,
            if q == Quality::Diminished {
                1
            } else {
                2
            },
        )
    } else {
        seq![]
    }
}

/// Everything tried over the first `i` qualities.
pub open spec fn specs_upto(i: int) -> Seq<ChordSpec>
    decreases i,
{
    if i <= 0 {
        seq![]
    } else {
        specs_upto(i - 1) + quality_specs(quality_at(i - 1))
    }
}

/// The half-diminished seventh `m7b5`.
pub open spec fn half_dim_spec() -> ChordSpec {
    ChordSpec { quality: Quality::Minor, seventh: Seventh::Minor, alteration_bits: 2, ..plain_spec(Quality::Major) }
}

/// Every candidate spec, in the order tried.
pub open spec fn all_candidate_specs() -> Seq<ChordSpec> {
    specs_upto(7) + kept(half_dim_spec()) + kept(ChordSpec { extension: Some(Extension::Ninth), ..half_dim_spec() })
}

/// The chord specs a fingering is matched against: every quality with its
/// adds, sixths, sevenths, extensions and alteration sets, and the
/// half-diminished seventh and ninth, keeping only valid, non-redundant ones.
/// Pushes the usable specs of the first `seventh_count` sevenths over
/// `base`, each with its extensions and altered forms.
fn push_seventh_specs(specs: &mut Vec<ChordSpec>, base: ChordSpec, seventh_count: usize, plain_masks: &Vec<u16>)
    requires
        base.wf(),
        seventh_count == (if base.quality == Quality::Diminished { 1int } else { 2 }),
        forall|i: int| 0 <= i < old(specs)@.len() ==> candidate_spec_ok(#[trigger] old(specs)@[i]),
        plain_masks@ == masks_upto(None, 3),
    ensures
        forall|i: int| 0 <= i < final(specs)@.len() ==> candidate_spec_ok(#[trigger] final(specs)@[i]),
        final(specs)@ == old(specs)@ + seventh_specs(base, seventh_count as int),
{
    let extensions: [Extension; 3] = [Extension::Ninth, Extension::Eleventh, Extension::Thirteenth];
    assert(forall|i: int| 0 <= i < 3 ==> #[trigger] extensions@[i] == extension_at(i));
    let mut k: usize = 0;
    while k < seventh_count
        invariant
            0 <= k <= seventh_count <= 2,
            base.wf(),
            seventh_count == (if base.quality == Quality::Diminished { 1int } else { 2 }),
            plain_masks@ == masks_upto(None, 3),
            forall|i: int| 0 <= i < 3 ==> #[trigger] extensions@[i] == extension_at(i),
            forall|i: int| 0 <= i < specs@.len() ==> candidate_spec_ok(#[trigger] specs@[i]),
            specs@ == old(specs)@ + seventh_specs(base, k as int),
        decreases seventh_count - k,
    {
        let seventh = if base.quality == Quality::Diminished {
            Seventh::Diminished
        } else if k == 0 {
            Seventh::Minor
        } else {
            Seventh::Major
        };
        let mut seventh_spec = base;
        seventh_spec.seventh = seventh;
        assert(seventh_spec == ChordSpec { seventh: seventh_at(base.quality, k as int), ..base });
        push_candidate_spec(specs, seventh_spec);
        let ghost after_seventh = specs@;
        let mut e: usize = 0;
        while e < 3
            invariant
                0 <= e <= 3,
                seventh_spec.wf(),
                forall|i: int| 0 <= i < 3 ==> #[trigger] extensions@[i] == extension_at(i),
                forall|i: int| 0 <= i < specs@.len() ==> candidate_spec_ok(#[trigger] specs@[i]),
                specs@ == after_seventh + extended_specs(seventh_spec, e as int),
            decreases 3 - e,
        {
            let mut extended = seventh_spec;
            extended.extension = Some(extensions[e]);
            push_candidate_spec(specs, extended);
            let masks = alteration_masks(Some(extensions[e]));
            push_altered_specs(specs, extended, &masks);
            proof {
                assert(specs@ =~= after_seventh + extended_specs(seventh_spec, e + 1));
            }
            e += 1;
        }
        push_altered_specs(specs, seventh_spec, &plain_masks);
        proof {
            assert(specs@ =~= old(specs)@ + seventh_specs(base, k + 1));
        }
        k += 1;
    }
}

/// Pushes the usable specs tried over `quality`.
#[verifier::rlimit(80)]
fn push_quality_specs(specs: &mut Vec<ChordSpec>, quality: Quality, plain_masks: &Vec<u16>)
    requires
        forall|i: int| 0 <= i < old(specs)@.len() ==> candidate_spec_ok(#[trigger] old(specs)@[i]),
        plain_masks@ == masks_upto(None, 3),
    ensures
        forall|i: int| 0 <= i < final(specs)@.len() ==> candidate_spec_ok(#[trigger] final(specs)@[i]),
        final(specs)@ == old(specs)@ + quality_specs(quality),
{
    let ghost before = specs@;
    let mut base = ChordSpec::major();
    base.quality = quality;
    assert(base == plain_spec(quality));
    push_candidate_spec(specs, base);
    assert(specs@ == before + kept(base));
    if quality != Quality::Power {
        if quality == Quality::Major {
            let mut alt = ChordSpec::major();
            alt.alt = true;
            assert(alt == ChordSpec { alt: true, ..base });
            push_candidate_spec(specs, alt);
        }
        let ghost after_alt = specs@;
        let mut add: u16 = 0;
        while add < 3
            invariant
                0 <= add <= 3,
                base.wf(),
                base.add_bits == 0,
                base == plain_spec(quality),
                forall|i: int| 0 <= i < specs@.len() ==> candidate_spec_ok(#[trigger] specs@[i]),
                specs@ == after_alt + added_specs(base, add as int),
            decreases 3 - add,
        {
            let mut spec = base;
            let bit: u16 = 1u16 << add;
            assert(bit < 8) by (bit_vector)
                requires
                    add < 3,
                    bit == 1u16 << add,
            ;
            assert(bit == (if add == 0 { 1u16 } else if add == 1 { 2u16 } else { 4u16 })) by (bit_vector)
                requires
                    add < 3,
                    bit == 1u16 << add,
            ;
            spec.add_bits = bit;
            push_candidate_spec(specs, spec);
            proof {
                assert(specs@ =~= after_alt + added_specs(base, add + 1));
            }
            add += 1;
        }
        let ghost after_adds = specs@;
        if quality == Quality::Major || quality == Quality::Minor {
            let mut six = base;
            six.sixth = true;
            push_candidate_spec(specs, six);
            six.add_bits = 1;
            push_candidate_spec(specs, six);
        }
        let ghost after_six = specs@;
        let seventh_count: usize = if quality == Quality::Diminished {
            1
        } else {
            2
        };
        push_seventh_specs(specs, base, seventh_count, plain_masks);
        proof {
            let alt_part = if quality == Quality::Major {
                kept(ChordSpec { alt: true, ..base })
            } else {
                seq![]
            };
            let six_part = if quality == Quality::Major || quality == Quality::Minor {
                kept(ChordSpec { sixth: true, ..base }) + kept(ChordSpec { sixth: true, add_bits: 1, ..base })
            } else {
                seq![]
            };
            assert(after_alt == before + kept(base) + alt_part);
            assert(after_six == after_adds + six_part);
            assert(quality_specs(quality) == kept(base) + (alt_part + added_specs(base, 3) + six_part
                + seventh_specs(base, seventh_count as int)));
            assert(specs@ =~= before + quality_specs(quality));
        }
    } else {
        proof {
            assert(specs@ =~= before + quality_specs(quality));
        }
    }
}

pub fn candidate_specs() -> (specs: Vec<ChordSpec>)
    ensures
        forall|i: int| 0 <= i < specs@.len() ==> candidate_spec_ok(#[trigger] specs@[i]),
        specs@ == all_candidate_specs(),
{
    let mut specs: Vec<ChordSpec> = Vec::new();
    let qualities: [Quality; 7] = [
        Quality::Major,
        Quality::Minor,
        Quality::Diminished,
        Quality::Augmented,
        Quality::Sus2,
        Quality::Sus4,
        Quality::Power,
    ];
    let plain_masks = alteration_masks(None);
    let mut q: usize = 0;
    while q < 7
        invariant
            0 <= q <= 7,
            forall|i: int| 0 <= i < specs@.len() ==> candidate_spec_ok(#[trigger] specs@[i]),
            plain_masks@ == masks_upto(None, 3),
            forall|i: int| 0 <= i < 7 ==> #[trigger] qualities@[i] == quality_at(i),
            specs@ == specs_upto(q as int),
        decreases 7 - q,
    {
        let quality = qualities[q];
        push_quality_specs(&mut specs, quality, &plain_masks);
        proof {
            assert(quality == quality_at(q as int));
            assert(specs@ =~= specs_upto(q + 1));
        }
        q += 1;
    }
    let mut half_dim = ChordSpec::major();
    half_dim.quality = Quality::Minor;
    half_dim.seventh = Seventh::Minor;
    half_dim.alteration_bits = 1u16 << 1u16;
    assert((1u16 << 1u16) == 2u16) by (bit_vector);
    assert(half_dim == half_dim_spec());
    push_candidate_spec(&mut specs, half_dim);
    half_dim.extension = Some(Extension::Ninth);
    push_candidate_spec(&mut specs, half_dim);
    proof {
        assert(specs@ =~= all_candidate_specs());
    }
    specs
}

/// Whether `note` is listed.
fn contains_note(notes: &Vec<NoteName>, note: NoteName) -> (b: bool)
    ensures
        b == notes@.contains(note),
{
    let mut i: usize = 0;
    while i < notes.len()
        invariant
            0 <= i <= notes@.len(),
            forall|j: int| 0 <= j < i ==> notes@[j] != note,
        decreases notes@.len() - i,
    {
        if notes[i] == note {
            assert(notes@[i as int] == note);
            return true;
        }
        i += 1;
    }
    false
}

/// Adds `note` unless it is already listed.
fn push_unique_note(notes: &mut Vec<NoteName>, note: NoteName)
    requires
        -2 <= note.accidental <= 2,
        forall|i: int| 0 <= i < old(notes)@.len() ==> -2 <= #[trigger] old(notes)@[i].accidental <= 2,
    ensures
        forall|i: int| 0 <= i < final(notes)@.len() ==> -2 <= #[trigger] final(notes)@[i].accidental <= 2,
        final(notes)@ == if old(notes)@.contains(note) {
            old(notes)@
        } else {
            old(notes)@.push(note)
        },
{
    if !contains_note(notes, note) {
        notes.push(note);
    }
}

/// The extra spelling tried for pitch class `p`: B#, Fb, E# or Cb.
pub open spec fn edge_spelling(p: int) -> Seq<NoteName> {
    if p == 0 {
        seq![NoteName { letter: NoteLetter::B, accidental: 1 }]
    } else if p == 4 {
        seq![NoteName { letter: NoteLetter::F, accidental: -1i8 }]
    } else if p == 5 {
        seq![NoteName { letter: NoteLetter::E, accidental: 1 }]
    } else if p == 11 {
        seq![NoteName { letter: NoteLetter::C, accidental: -1i8 }]
    } else {
        seq![]
    }
}

/// The spellings tried for pitch class `p`: the usual simple one, the other
/// simple one where it differs, then the edge spelling.
pub open spec fn pitch_spellings(p: int) -> Seq<NoteName> {
    let usual = if flat_pitch(p) {
        flat_name(p)
    } else {
        sharp_name(p)
    };
    let other = if flat_pitch(p) {
        sharp_name(p)
    } else {
        flat_name(p)
    };
    (if usual == other {
        seq![usual]
    } else {
        seq![usual, other]
    }) + edge_spelling(p)
}

/// The spellings tried for pitch classes `0..p`, in order.
pub open spec fn root_spellings_upto(p: int) -> Seq<NoteName>
    decreases p,
{
    if p <= 0 {
        seq![]
    } else {
        root_spellings_upto(p - 1) + pitch_spellings(p - 1)
    }
}

/// The root spellings tried: both simple spellings of every pitch class,
/// the usual one first, and the edge spellings B#, Fb, E# and Cb.
pub fn candidate_root_spellings() -> (roots: Vec<NoteName>)
    ensures
        forall|i: int| 0 <= i < roots@.len() ==> -2 <= #[trigger] roots@[i].accidental <= 2,
        roots@ == root_spellings_upto(12),
{
    let mut roots: Vec<NoteName> = Vec::new();
    let mut p: u8 = 0;
    while p < 12
        invariant
            0 <= p <= 12,
            forall|i: int| 0 <= i < roots@.len() ==> -2 <= #[trigger] roots@[i].accidental <= 2,
            forall|i: int| 0 <= i < roots@.len() ==> note_pitch(#[trigger] roots@[i]) < p,
            roots@ == root_spellings_upto(p as int),
        decreases 12 - p,
    {
        let pitch = PitchClass::from_value(p);
        let flat = NoteName::simple_for_pitch(pitch, true);
        let sharp = NoteName::simple_for_pitch(pitch, false);
        proof {
            assert(!roots@.contains(flat));
            assert(!roots@.contains(sharp));
        }
        let ghost before = roots@;
        let ghost pi = p as int;
        let ghost usual = if flat_pitch(pi) {
            flat
        } else {
            sharp
        };
        let ghost other = if flat_pitch(pi) {
            sharp
        } else {
            flat
        };
        let ghost simple = if usual == other {
            seq![usual]
        } else {
            seq![usual, other]
        };
        if prefer_flat_pitch(pitch) {
            push_unique_note(&mut roots, flat);
            assert(before.push(flat).contains(sharp) <==> sharp == flat) by {
                if before.push(flat).contains(sharp) {
                    let j = choose|j: int| 0 <= j < before.push(flat).len() && before.push(flat)[j] == sharp;
                    assert(j == before.len());
                }
                if sharp == flat {
                    assert(before.push(flat)[before.len() as int] == sharp);
                }
            }
            push_unique_note(&mut roots, sharp);
        } else {
            push_unique_note(&mut roots, sharp);
            assert(before.push(sharp).contains(flat) <==> sharp == flat) by {
                if before.push(sharp).contains(flat) {
                    let j = choose|j: int| 0 <= j < before.push(sharp).len() && before.push(sharp)[j] == flat;
                    assert(j == before.len());
                }
                if sharp == flat {
                    assert(before.push(sharp)[before.len() as int] == flat);
                }
            }
            push_unique_note(&mut roots, flat);
        }
        assert(roots@ =~= before + simple);
        let ghost mid = roots@;
        assert(forall|i: int| 0 <= i < mid.len() ==> #[trigger] mid[i] == flat || mid[i] == sharp || note_pitch(mid[i]) < p);
        if p == 0 {
            push_unique_note(&mut roots, NoteName { letter: NoteLetter::B, accidental: 1 });
        } else if p == 4 {
            push_unique_note(&mut roots, NoteName { letter: NoteLetter::F, accidental: -1 });
        } else if p == 5 {
            push_unique_note(&mut roots, NoteName { letter: NoteLetter::E, accidental: 1 });
        } else if p == 11 {
            push_unique_note(&mut roots, NoteName { letter: NoteLetter::C, accidental: -1 });
        }
        proof {
            assert(pitch_spellings(pi) =~= simple + edge_spelling(pi));
            assert(roots@ =~= mid + edge_spelling(pi));
        }
        p += 1;
    }
    roots
}

/// The set `s` moved up by `n` semitones.
pub fn rotate_pitch_set(s: PitchSet, n: u8) -> (r: PitchSet)
    requires
        s.wf(),
        n < 12,
    ensures
        r.wf(),
        forall|p: int| 0 <= p < 12 ==> r.has((p + n) % 12) == s.has(p),
{
    let mut r = PitchSet::empty();
    let mut p: u8 = 0;
    while p < 12
        invariant
            0 <= p <= 12,
            n < 12,
            r.wf(),
            forall|q: int| 0 <= q < p ==> r.has((q + n) % 12) == s.has(q),
            forall|t: int| r.has(t) ==> exists|q: int| 0 <= q < p && t == (q + n) % 12 && s.has(q),
        decreases 12 - p,
    {
        if s.contains_value(p) {
            r.insert(PitchClass::from_value((p + n) % 12));
        }
        proof {
            assert forall|q: int| 0 <= q < p + 1 implies r.has((q + n) % 12) == s.has(q) by {
                if q < p && !s.has(q) && r.has((q + n) % 12) {
                    let w = choose|w: int| 0 <= w < p + 1 && (q + n) % 12 == (w + n) % 12 && s.has(w);
                    assert(w == q);
                }
            }
        }
        p += 1;
    }
    r
}


/// The tones a reading names: the tones of its spec above its root.
pub open spec fn reading_tones(c: AnalysisCandidate) -> Seq<ChordTone> {
    slots_from(spec_tones(c.spec), 0).map_values(|k: int| formula_tone(c.root, k))
}

/// The pitch classes of some tones.
pub open spec fn tone_pitches(tones: Seq<ChordTone>) -> Set<int> {
    Set::new(|p: int| exists|i: int| 0 <= i < tones.len() && #[trigger] tones[i].pitch_class == p)
}

/// A reading accounts for the `played` pitch classes over `bass`: its spec
/// is one the grammar lists; its bass is
/// `bass`, a played pitch, written after a slash exactly when it is not a
/// chord tone; an exact
/// reading's tones and bass are the played set; a reading with omissions
/// covers every played pitch with its tones and bass, and the chord tones not
/// played are omissible degrees, which its omissions name.
pub open spec fn reading_explains(c: AnalysisCandidate, played: Set<int>, bass: int) -> bool {
    let tones = reading_tones(c);
    let chord = tone_pitches(tones);
    let missing = chord.difference(played);
    &&& candidate_spec_ok(c.spec)
    &&& c.bass.spec_value() == bass
    &&& played.contains(bass)
    &&& c.slash_bass == !chord.contains(bass)
    &&& if c.omitted {
        &&& played.subset_of(chord.insert(bass))
        &&& omission_allowed(tones, missing)
        &&& c.omissions == omission_mask_for(tones, missing)
    } else {
        &&& chord.insert(bass) == played
        &&& c.omissions == 0
    }
}

/// A tone above `root` sounds its pitch class above C moved up by the root.
proof fn lemma_tone_moves_with_root(k: int, root: NoteName)
    ensures
        formula_tone(root, k).pitch_class == (formula_tone(
            NoteName { letter: NoteLetter::C, accidental: 0 },
            k,
        ).pitch_class + note_pitch(root)) % 12,
{
    let n = note_pitch(root);
    let c_root = NoteName { letter: NoteLetter::C, accidental: 0 };
    let s = crate::formula::tone_semitones(k);
    assert(note_pitch(c_root) == 0);
    assert(0 <= n < 12);
    let a = (n + s) % 12;
    let b = (0 + s) % 12;
    assert(formula_tone(root, k).pitch_class == a);
    assert(formula_tone(c_root, k).pitch_class == b);
    assert((b + n) % 12 == a) by {
        vstd::arithmetic::div_mod::lemma_add_mod_noop(s, n, 12);
        vstd::arithmetic::div_mod::lemma_small_mod(n as nat, 12);
        assert(0 + s == s);
    }
}

/// Moving a shape on C up to `root` moves its pitch classes with it.
#[verifier::rlimit(80)]
proof fn lemma_rotated_pitches(
    slots: Seq<int>,
    shape: Seq<ChordTone>,
    tones: Seq<ChordTone>,
    root: NoteName,
    intervals: PitchSet,
    formula_set: PitchSet,
)
    requires
        shape == slots.map_values(
            |k: int| formula_tone(NoteName { letter: NoteLetter::C, accidental: 0 }, k),
        ),
        tones == slots.map_values(|k: int| formula_tone(root, k)),
        forall|p: int|
            intervals.has(p) <==> exists|i: int| 0 <= i < shape.len() && #[trigger] shape[i].pitch_class == p,
        forall|p: int| 0 <= p < 12 ==> formula_set.has((p + note_pitch(root)) % 12) == intervals.has(p),
    ensures
        formula_set.pitches() == tone_pitches(tones),
{
    let n = note_pitch(root);
    assert forall|i: int| 0 <= i < tones.len() implies (#[trigger] tones[i]).pitch_class == (
    shape[i].pitch_class + n) % 12 by {
        lemma_tone_moves_with_root(slots[i], root);
    }
    assert(0 <= n < 12);
    assert forall|p: int| formula_set.has(p) <==> tone_pitches(tones).contains(p) by {
        if formula_set.has(p) {
            let q = (p - n + 12) % 12;
            assert(0 <= q < 12 && (q + n) % 12 == p) by {
                assert(0 <= p < 12);
                if p >= n {
                    assert(q == p - n);
                } else {
                    assert(q == p - n + 12);
                }
            }
            assert(formula_set.has((q + n) % 12) == intervals.has(q));
            assert(intervals.has(q));
            let i = choose|i: int| 0 <= i < shape.len() && #[trigger] shape[i].pitch_class == q;
            assert(tones[i].pitch_class == p);
        }
        if tone_pitches(tones).contains(p) {
            let i = choose|i: int| 0 <= i < tones.len() && #[trigger] tones[i].pitch_class == p;
            let q = shape[i].pitch_class as int;
            assert(0 <= q < 12);
            assert(intervals.has(q));
            assert(formula_set.has((q + n) % 12));
        }
    }
    assert(formula_set.pitches() =~= tone_pitches(tones));
}

/// Two sets with the same members have the same bits.
proof fn lemma_same_members(a: PitchSet, b: PitchSet)
    requires
        a.wf(),
        b.wf(),
        forall|p: int| 0 <= p < 12 ==> a.has(p) == b.has(p),
    ensures
        a.bits == b.bits,
{
    assert forall|q: u16| q < 12 implies bit_set(a.bits, q) == bit_set(b.bits, q) by {
        assert(a.has(q as int) == b.has(q as int));
    }
    lemma_bits_ext(a.bits, b.bits);
}

/// The set with no bits has no members.
proof fn lemma_no_members(s: PitchSet)
    requires
        s.bits == 0,
    ensures
        forall|p: int| !s.has(p),
{
    assert forall|p: int| !s.has(p) by {
        if 0 <= p < 12 {
            let q = p as u16;
            assert(!bit_set(0u16, q)) by (bit_vector);
        }
    }
}

/// An exact reading: its tones are the played set.
proof fn lemma_exact_reading(c: AnalysisCandidate, chord: PitchSet, played: PitchSet, bass: int)
    requires
        candidate_spec_ok(c.spec),
        chord.pitches() == tone_pitches(reading_tones(c)),
        chord == played,
        played.has(bass),
        c.bass.spec_value() == bass,
        !c.omitted,
        !c.slash_bass,
        c.omissions == 0,
    ensures
        reading_explains(c, played.pitches(), bass),
{
    assert(tone_pitches(reading_tones(c)).contains(bass));
    assert(played.pitches().contains(bass));
    assert(tone_pitches(reading_tones(c)).insert(bass) =~= played.pitches());
}

/// A slash reading: its tones and the bass below them are the played set.
proof fn lemma_slash_reading(c: AnalysisCandidate, chord: PitchSet, played: PitchSet, bass: int)
    requires
        candidate_spec_ok(c.spec),
        chord.pitches() == tone_pitches(reading_tones(c)),
        !chord.has(bass),
        forall|p: int| played.has(p) == (chord.has(p) || p == bass),
        c.bass.spec_value() == bass,
        !c.omitted,
        c.slash_bass,
        c.omissions == 0,
    ensures
        reading_explains(c, played.pitches(), bass),
{
    assert(!tone_pitches(reading_tones(c)).contains(bass));
    assert(played.pitches().contains(bass));
    assert(tone_pitches(reading_tones(c)).insert(bass) =~= played.pitches());
}

/// A reading with omissions: the played pitches lie in its tones and bass,
/// and the missing tones are the omissions it infers.
proof fn lemma_omitted_reading(
    c: AnalysisCandidate,
    chord: PitchSet,
    played: PitchSet,
    missing: PitchSet,
    bass: int,
)
    requires
        candidate_spec_ok(c.spec),
        chord.pitches() == tone_pitches(reading_tones(c)),
        played.has(bass),
        forall|p: int| played.has(p) ==> chord.has(p) || p == bass,
        forall|p: int| missing.has(p) == (chord.has(p) && !played.has(p)),
        omission_allowed(reading_tones(c), missing.pitches()),
        c.omissions == omission_mask_for(reading_tones(c), missing.pitches()),
        c.bass.spec_value() == bass,
        c.omitted,
        c.slash_bass == !chord.has(bass),
    ensures
        reading_explains(c, played.pitches(), bass),
{
    let tones = reading_tones(c);
    assert(missing.pitches() =~= tone_pitches(tones).difference(played.pitches()));
    assert(chord.has(bass) == tone_pitches(tones).contains(bass));
    assert(played.pitches().contains(bass));
    assert(played.pitches().subset_of(tone_pitches(tones).insert(bass)));
}

/// A reading kept after an offer, other than the one offered, was kept before.
proof fn lemma_considered_member(items: Seq<AnalysisCandidate>, c: AnalysisCandidate, x: AnalysisCandidate)
    requires
        considered(items, c).count(x) > 0,
        x != c,
    ensures
        exists|m: int| 0 <= m < items.len() && items[m] == x,
{
    broadcast use vstd::seq_lib::group_to_multiset_ensures;
    broadcast use vstd::multiset::group_multiset_axioms;

    if exists|i: int| 0 <= i < items.len() && same_symbol(#[trigger] items[i], c) {
        let i = choose|i: int| 0 <= i < items.len() && same_symbol(#[trigger] items[i], c);
        if lex_lt(c.key@, items[i].key@) {
            let rest = items.remove(i);
            assert(rest.to_multiset().count(x) > 0);
            let k = choose|k: int| 0 <= k < rest.len() && rest[k] == x;
            if k < i {
                assert(items[k] == x);
            } else {
                assert(items[k + 1] == x);
            }
        } else {
            assert(items.to_multiset().count(x) > 0);
        }
    } else if items.len() < MAX_IDENTIFY_ANALYSES {
        assert(items.to_multiset().count(x) > 0);
    } else if lex_lt(c.key@, items.last().key@) {
        let rest = items.drop_last();
        assert(rest.to_multiset().count(x) > 0);
        let k = choose|k: int| 0 <= k < rest.len() && rest[k] == x;
        assert(items[k] == x);
    } else {
        assert(items.to_multiset().count(x) > 0);
    }
}

/// What offering a reading keeps was kept before or is the reading.
proof fn lemma_considered_explains(
    items: Seq<AnalysisCandidate>,
    c: AnalysisCandidate,
    out: Seq<AnalysisCandidate>,
    played: Set<int>,
    bass: int,
)
    requires
        out.to_multiset() == considered(items, c),
        forall|i: int| 0 <= i < items.len() ==> reading_explains(#[trigger] items[i], played, bass),
        reading_explains(c, played, bass),
    ensures
        forall|i: int| 0 <= i < out.len() ==> reading_explains(#[trigger] out[i], played, bass),
{
    broadcast use vstd::seq_lib::group_to_multiset_ensures;

    assert forall|j: int| 0 <= j < out.len() implies reading_explains(#[trigger] out[j], played, bass) by {
        let x = out[j];
        assert(out.contains(x));
        assert(out.to_multiset().count(x) > 0);
        if x != c {
            lemma_considered_member(items, c, x);
            let m = choose|m: int| 0 <= m < items.len() && items[m] == x;
            assert(reading_explains(items[m], played, bass));
        }
    }
}

/// Offering a scored reading to scored readings keeps only scored ones.
proof fn lemma_considered_scored(items: Seq<AnalysisCandidate>, c: AnalysisCandidate, out: Seq<AnalysisCandidate>)
    requires
        out.to_multiset() == considered(items, c),
        forall|i: int| 0 <= i < items.len() ==> reading_scored(#[trigger] items[i]),
        reading_scored(c),
    ensures
        forall|i: int| 0 <= i < out.len() ==> reading_scored(#[trigger] out[i]),
{
    broadcast use vstd::seq_lib::group_to_multiset_ensures;

    assert forall|j: int| 0 <= j < out.len() implies reading_scored(#[trigger] out[j]) by {
        let x = out[j];
        assert(out.contains(x));
        assert(out.to_multiset().count(x) > 0);
        if x != c {
            lemma_considered_member(items, c, x);
            let m = choose|m: int| 0 <= m < items.len() && items[m] == x;
            assert(reading_scored(items[m]));
        }
    }
}

/// The pitch classes of a set, two of them distinct.
pub open spec fn two_pitches(s: Set<int>) -> bool {
    exists|a: int, b: int| a != b && #[trigger] s.contains(a) && #[trigger] s.contains(b)
}

/// Set bits below `n` are counted.
proof fn lemma_count_bits_lower(bits: u16, n: nat, a: int, b: int)
    requires
        a != b,
    ensures
        count_bits(bits, n) >= (if 0 <= a < n && bit_set(bits, a as u16) {
            1int
        } else {
            0
        }) + (if 0 <= b < n && bit_set(bits, b as u16) {
            1int
        } else {
            0
        }),
    decreases n,
{
    if n > 0 {
        lemma_count_bits_lower(bits, (n - 1) as nat, a, b);
    }
}

/// A positive count has a set bit below `n`.
proof fn lemma_count_bits_member(bits: u16, n: nat)
    requires
        count_bits(bits, n) >= 1,
    ensures
        exists|a: int| 0 <= a < n && #[trigger] bit_set(bits, a as u16),
    decreases n,
{
    if n > 0 {
        if bit_set(bits, (n - 1) as u16) {
            assert(bit_set(bits, ((n - 1) as int) as u16));
        } else {
            lemma_count_bits_member(bits, (n - 1) as nat);
            let a = choose|a: int| 0 <= a < n - 1 && #[trigger] bit_set(bits, a as u16);
        }
    }
}

/// A count of two has two set bits below `n`.
proof fn lemma_count_bits_two(bits: u16, n: nat)
    requires
        count_bits(bits, n) >= 2,
    ensures
        exists|a: int, b: int| 0 <= a < n && 0 <= b < n && a != b && #[trigger] bit_set(bits, a as u16)
            && #[trigger] bit_set(bits, b as u16),
    decreases n,
{
    if n > 0 {
        if bit_set(bits, (n - 1) as u16) {
            lemma_count_bits_member(bits, (n - 1) as nat);
            let a = choose|a: int| 0 <= a < n - 1 && #[trigger] bit_set(bits, a as u16);
            assert(bit_set(bits, ((n - 1) as int) as u16));
        } else {
            lemma_count_bits_two(bits, (n - 1) as nat);
        }
    }
}

/// A set holds two pitch classes exactly when its size is at least two.
proof fn lemma_size_two(s: PitchSet)
    requires
        s.wf(),
    ensures
        (s.size() >= 2) == two_pitches(s.pitches()),
{
    if s.size() >= 2 {
        lemma_count_bits_two(s.bits, 12);
        let (a, b) = choose|a: int, b: int| 0 <= a < 12 && 0 <= b < 12 && a != b && #[trigger] bit_set(
            s.bits,
            a as u16,
        ) && #[trigger] bit_set(s.bits, b as u16);
        assert(s.pitches().contains(a) && s.pitches().contains(b));
    }
    if two_pitches(s.pitches()) {
        let (a, b) = choose|a: int, b: int| a != b && #[trigger] s.pitches().contains(a) && #[trigger] s.pitches().contains(b);
        lemma_count_bits_lower(s.bits, 12, a, b);
    }
}

/// Some candidate spec over some candidate root reads `played` exactly.
pub open spec fn exact_reading(played: Set<int>) -> bool {
    exists|si: int, ri: int|
        0 <= si < all_candidate_specs().len() && 0 <= ri < root_spellings_upto(12).len() && exact_match(
            #[trigger] all_candidate_specs()[si],
            #[trigger] root_spellings_upto(12)[ri],
            played,
        )
}

/// Offering a reading always leaves some reading kept.
proof fn lemma_considered_nonempty(items: Seq<AnalysisCandidate>, c: AnalysisCandidate)
    ensures
        considered(items, c).len() > 0,
{
    vstd::seq_lib::to_multiset_len(items);
    if exists|i: int| 0 <= i < items.len() && same_symbol(#[trigger] items[i], c) {
        let i = choose|i: int| 0 <= i < items.len() && same_symbol(#[trigger] items[i], c);
        vstd::seq_lib::to_multiset_len(items.remove(i));
    } else if items.len() < MAX_IDENTIFY_ANALYSES {
    } else {
        vstd::seq_lib::to_multiset_len(items.drop_last());
    }
}

/// `spec` over `root` reads the `played` pitch classes exactly: its shape
/// repeats no pitch class, its tones are spelled within double
/// accidentals, and they sound exactly the played pitch classes.
pub open spec fn exact_match(spec: ChordSpec, root: NoteName, played: Set<int>) -> bool {
    let slots = slots_from(spec_tones(spec), 0);
    let shape = slots.map_values(|k: int| formula_tone(NoteName { letter: NoteLetter::C, accidental: 0 }, k));
    let tones = slots.map_values(|k: int| formula_tone(root, k));
    &&& !(exists|i: int, j: int|
        0 <= i < j < shape.len() && #[trigger] shape[i].pitch_class == #[trigger] shape[j].pitch_class)
    &&& forall|i: int| 0 <= i < tones.len() ==> -2 <= #[trigger] tones[i].note.accidental <= 2
    &&& tone_pitches(tones) == played
}

/// Offers a reading that accounts for the played set to a set of such
/// readings.
fn offer(
    set: &mut AnalysisCandidateSet,
    c: AnalysisCandidate,
    Ghost(played): Ghost<Set<int>>,
    Ghost(bass): Ghost<int>,
)
    requires
        old(set).wf(),
        -2 <= c.root.accidental <= 2,
        summary_wf(c.summary),
        c.omissions < 8,
        forall|i: int|
            0 <= i < old(set).items@.len() ==> reading_explains(#[trigger] old(set).items@[i], played, bass),
        reading_explains(c, played, bass),
        forall|i: int| 0 <= i < old(set).items@.len() ==> reading_scored(#[trigger] old(set).items@[i]),
        reading_scored(c),
    ensures
        forall|i: int| 0 <= i < final(set).items@.len() ==> reading_scored(#[trigger] final(set).items@[i]),
        final(set).wf(),
        final(set).items@.to_multiset() == considered(old(set).items@, c),
        final(set).items@.len() > 0,
        forall|i: int|
            0 <= i < final(set).items@.len() ==> reading_explains(#[trigger] final(set).items@[i], played, bass),
{
    proof {
        lemma_considered_nonempty(old(set).items@, c);
    }
    let ghost before = set.items@;
    let ghost gc = c;
    set.consider(c);
    proof {
        lemma_considered_explains(before, gc, set.items@, played, bass);
        lemma_considered_scored(before, gc, set.items@);
        vstd::seq_lib::to_multiset_len(set.items@);
    }
}


/// Weighs every candidate chord against the played pitch classes: exact
/// matches, supersets missing omissible tones, and slash readings whose bass
/// is not a chord tone. Every reading kept accounts for the played pitch
/// classes over the bass.
pub fn identify_core(played: &PlayedFingering, tuning: &Tuning) -> (set: AnalysisCandidateSet)
    requires
        played.set.wf(),
        played.bass matches Some(b) ==> played.set.has(b.spec_value() as int),
    ensures
        set.wf(),
        played.bass is None ==> set.items@.len() == 0,
        played.set.size() < 2 ==> set.items@.len() == 0,
        !two_pitches(played.set.pitches()) ==> set.items@.len() == 0,
        forall|i: int| 0 <= i < set.items@.len() ==> reading_scored(#[trigger] set.items@[i]),
        played.bass matches Some(b) ==> forall|i: int|
            0 <= i < set.items@.len() ==> reading_explains(
                #[trigger] set.items@[i],
                played.set.pitches(),
                b.spec_value() as int,
            ),
        played.bass is Some && two_pitches(played.set.pitches()) && exact_reading(played.set.pitches())
            ==> set.items@.len() > 0,
{
    proof {
        lemma_size_two(played.set);
    }
    let mut set = AnalysisCandidateSet::new();
    let bass = match played.bass {
        Some(b) => b,
        None => {
            return set;
        },
    };
    if played.set.len() < 2 {
        return set;
    }
    let ghost pp = played.set.pitches();
    let ghost pb = bass.spec_value() as int;
    let show_chord_tone_bass = tuning.prefers_root_bass();
    let specs = candidate_specs();
    let roots = candidate_root_spellings();
    let played_without_bass = played.set.difference(PitchSet::empty().with(bass));
    let c_root = NoteName { letter: NoteLetter::C, accidental: 0 };
    let mut s: usize = 0;
    while s < specs.len()
        invariant
            0 <= s <= specs@.len(),
            specs@ == all_candidate_specs(),
            roots@ == root_spellings_upto(12),
            (exists|si: int, ri: int|
                0 <= si < s && 0 <= ri < roots@.len() && exact_match(#[trigger] specs@[si], #[trigger] roots@[ri], pp))
                ==> set.items@.len() > 0,
            set.wf(),
            played.set.wf(),
            played_without_bass.wf(),
            played.set.has(pb),
            pp == played.set.pitches(),
            pb == bass.spec_value(),
            forall|p: int| played_without_bass.has(p) == (played.set.has(p) && p != pb),
            c_root == (NoteName { letter: NoteLetter::C, accidental: 0 }),
            forall|i: int| 0 <= i < roots@.len() ==> -2 <= #[trigger] roots@[i].accidental <= 2,
            forall|i: int| 0 <= i < specs@.len() ==> candidate_spec_ok(#[trigger] specs@[i]),
            forall|i: int| 0 <= i < set.items@.len() ==> reading_explains(#[trigger] set.items@[i], pp, pb),
            forall|i: int| 0 <= i < set.items@.len() ==> reading_scored(#[trigger] set.items@[i]),
        decreases specs@.len() - s,
    {
        let spec = specs[s];
        let bits = raw_tones_from_spec(&spec);
        let shape = ChordFormula::from_tone_bits(c_root, bits);
        if !shape.has_duplicate_pitch_classes() {
            let intervals = shape.pitch_set();
            let mut r: usize = 0;
            while r < roots.len()
                invariant
                    0 <= r <= roots@.len(),
                    0 <= s < specs@.len(),
                    spec == specs@[s as int],
                    (exists|si: int, ri: int|
                        ((0 <= si < s && 0 <= ri < roots@.len()) || (si == s && 0 <= ri < r)) && exact_match(
                            #[trigger] specs@[si],
                            #[trigger] roots@[ri],
                            pp,
                        )) ==> set.items@.len() > 0,
                    !(exists|i: int, j: int|
                        0 <= i < j < shape.tones@.len() && #[trigger] shape.tones@[i].pitch_class
                            == #[trigger] shape.tones@[j].pitch_class),
                    set.wf(),
                    played.set.wf(),
                    played_without_bass.wf(),
                    intervals.wf(),
                    played.set.has(pb),
                    pp == played.set.pitches(),
                    pb == bass.spec_value(),
                    forall|p: int| played_without_bass.has(p) == (played.set.has(p) && p != pb),
                    bits == spec_tones(spec),
                    candidate_spec_ok(spec),
                    shape.tones@ == slots_from(bits, 0).map_values(|k: int| formula_tone(c_root, k)),
                    c_root == (NoteName { letter: NoteLetter::C, accidental: 0 }),
                    forall|p: int|
                        intervals.has(p) <==> exists|i: int|
                            0 <= i < shape.tones@.len() && #[trigger] shape.tones@[i].pitch_class == p,
                    forall|i: int| 0 <= i < roots@.len() ==> -2 <= #[trigger] roots@[i].accidental <= 2,
                    forall|i: int|
                        0 <= i < set.items@.len() ==> reading_explains(#[trigger] set.items@[i], pp, pb),
                    forall|i: int| 0 <= i < set.items@.len() ==> reading_scored(#[trigger] set.items@[i]),
                decreases roots@.len() - r,
            {
                let root = roots[r];
                let formula_set = rotate_pitch_set(intervals, root.pitch_class().value());
                let exact = formula_set.bits == played.set.bits;
                let ghost root_tones = slots_from(bits, 0).map_values(|k: int| formula_tone(root, k));
                let ghost before_len = set.items@.len();
                proof {
                    lemma_rotated_pitches(slots_from(bits, 0), shape.tones@, root_tones, root, intervals, formula_set);
                    if exact_match(spec, root, pp) {
                        assert(formula_set.pitches() == pp);
                        assert forall|q: u16| q < 12 implies bit_set(formula_set.bits, q) == bit_set(
                            played.set.bits,
                            q,
                        ) by {
                            assert(formula_set.pitches().contains(q as int) == pp.contains(q as int));
                        }
                        lemma_bits_ext(formula_set.bits, played.set.bits);
                    }
                }
                let extra = played_without_bass.difference(formula_set);
                let superset = extra.bits == 0;
                if exact || superset {
                    let formula = ChordFormula::from_tone_bits(root, bits);
                    proof {
                        lemma_rotated_pitches(
                            slots_from(bits, 0),
                            shape.tones@,
                            formula.tones@,
                            root,
                            intervals,
                            formula_set,
                        );
                        if !exact {
                            lemma_no_members(extra);
                            assert forall|p: int| played.set.has(p) implies formula_set.has(p) || p == pb by {
                                assert(!extra.has(p));
                            }
                        }
                    }
                    if !formula.has_spelling_outside_double_accidentals() {
                        let summary = summary_of(&formula);
                        if exact {
                            let c = new_candidate(
                                root,
                                &spec,
                                summary,
                                bass,
                                0,
                                false,
                                show_chord_tone_bass,
                                false,
                            );
                            proof {
                                lemma_exact_reading(c, formula_set, played.set, pb);
                            }
                            offer(&mut set, c, Ghost(pp), Ghost(pb));
                            if !show_chord_tone_bass && bass.value() != root.pitch_class().value() {
                                let c = new_candidate(root, &spec, summary, bass, 0, false, true, false);
                                proof {
                                    lemma_exact_reading(c, formula_set, played.set, pb);
                                }
                                offer(&mut set, c, Ghost(pp), Ghost(pb));
                            }
                        } else if formula_set.contains(bass) {
                            let missing = formula_set.difference(played.set);
                            proof {
                                if missing.bits == 0 {
                                    lemma_no_members(missing);
                                    assert forall|p: int| 0 <= p < 12 implies formula_set.has(p) == played.set.has(p) by {
                                        assert(!missing.has(p));
                                    }
                                    lemma_same_members(formula_set, played.set);
                                }
                            }
                            if let Some(omissions) = inferred_omission_degrees(missing, &formula) {
                                let c = new_candidate(
                                    root,
                                    &spec,
                                    summary,
                                    bass,
                                    omissions,
                                    true,
                                    show_chord_tone_bass,
                                    false,
                                );
                                proof {
                                    lemma_omitted_reading(c, formula_set, played.set, missing, pb);
                                }
                                offer(&mut set, c, Ghost(pp), Ghost(pb));
                            }
                        } else {
                            let slash_set = formula_set.with(bass);
                            if slash_set.bits == played.set.bits {
                                let c = new_candidate(root, &spec, summary, bass, 0, false, true, true);
                                proof {
                                    lemma_slash_reading(c, formula_set, played.set, pb);
                                }
                                offer(&mut set, c, Ghost(pp), Ghost(pb));
                            } else {
                                let missing = formula_set.difference(played.set);
                                proof {
                                    if missing.bits == 0 {
                                        lemma_no_members(missing);
                                        assert forall|p: int| 0 <= p < 12 implies slash_set.has(p) == played.set.has(p) by {
                                            assert(!missing.has(p));
                                        }
                                        lemma_same_members(slash_set, played.set);
                                    }
                                }
                                if let Some(omissions) = inferred_omission_degrees(missing, &formula) {
                                    let c = new_candidate(
                                        root,
                                        &spec,
                                        summary,
                                        bass,
                                        omissions,
                                        true,
                                        true,
                                        true,
                                    );
                                    proof {
                                        lemma_omitted_reading(c, formula_set, played.set, missing, pb);
                                    }
                                    offer(&mut set, c, Ghost(pp), Ghost(pb));
                                }
                            }
                        }
                    }
                }
                proof {
                    if exact_match(spec, root, pp) {
                        assert(set.items@.len() > 0);
                    }
                    assert forall|si: int, ri: int|
                        ((0 <= si < s && 0 <= ri < roots@.len()) || (si == s && 0 <= ri < r + 1)) && exact_match(
                            #[trigger] specs@[si],
                            #[trigger] roots@[ri],
                            pp,
                        ) implies set.items@.len() > 0 by {
                        if si == s && ri == r {
                        } else {
                            assert(before_len > 0);
                        }
                    }
                }
                r += 1;
            }
        }
        proof {
            assert forall|si: int, ri: int|
                0 <= si < s + 1 && 0 <= ri < roots@.len() && exact_match(#[trigger] specs@[si], #[trigger] roots@[ri], pp)
                    implies set.items@.len() > 0 by {
                if si == s {
                    assert(spec == specs@[si]);
                }
            }
        }
        s += 1;
    }
    set
}

/// A materialized reading, with what classification and respelling need.
struct BuiltAnalysis {
    analysis: ChordAnalysis,
    spellings: Vec<Option<NoteName>>,
    root: NoteName,
    omissions: u8,
    intervals: Vec<IntervalName>,
}

/// The intervals are chord degrees within range.
spec fn intervals_wf(v: Seq<IntervalName>) -> bool {
    forall|i: int| 0 <= i < v.len() ==> degree_position(#[trigger] v[i].degree as int) >= 0
        && -100 <= v[i].semitones <= 100
}

/// An analysis is written out from reading `c`: the reading's root, its
/// spelled tones and their intervals in order, its score, and exact
/// confidence just when it infers no omissions.
pub open spec fn analysis_of(a: ChordAnalysis, c: AnalysisCandidate) -> bool {
    let tones = reading_tones(c);
    &&& a.symbol@ == reading_symbol(c)
    &&& a.bass@ == note_text(reading_bass_name(c))
    &&& a.omissions@.len() == omission_seq(c.omissions).len()
    &&& forall|i: int| 0 <= i < a.omissions@.len() ==> (#[trigger] a.omissions@[i])@ == decimal(
        omission_degree_of(omission_seq(c.omissions)[i]) as nat,
    )
    &&& a.root@ == note_text(c.root)
    &&& a.notes@.len() == tones.len()
    &&& forall|i: int| 0 <= i < tones.len() ==> (#[trigger] a.notes@[i])@ == note_text(tones[i].note)
    &&& a.intervals@.len() == tones.len()
    &&& forall|i: int|
        0 <= i < tones.len() ==> (#[trigger] a.intervals@[i])@ == interval_text(tones[i].interval)
    &&& a.score == c.score
    &&& (a.confidence == Confidence::Exact) == !c.omitted
}

/// The name of a reading's bass: the first chord tone on its pitch class,
/// else the slash-bass spelling.
#[verifier::opaque]
pub open spec fn reading_bass_name(c: AnalysisCandidate) -> NoteName {
    let tones = reading_tones(c);
    let p = c.bass.spec_value() as int;
    if exists|i: int| #[trigger] first_tone_at(tones, i, p) {
        tones[choose|i: int| #[trigger] first_tone_at(tones, i, p)].note
    } else {
        slash_bass_name_of(c.root, p)
    }
}

/// The printed symbol of a reading: root, suffix, `no1` and `no3` for the
/// omitted root and third, and the bass after a slash when it shows.
#[verifier::opaque]
pub open spec fn reading_symbol(c: AnalysisCandidate) -> Seq<char> {
    note_text(c.root) + suffix_text(c.spec) + (if c.omissions & 1 != 0 {
        "no1"@
    } else {
        seq![]
    }) + (if c.omissions & 2 != 0 {
        "no3"@
    } else {
        seq![]
    }) + (if bass_visible(c) {
        seq!['/'] + note_text(reading_bass_name(c))
    } else {
        seq![]
    })
}

/// An analysis is written out from a reading that accounts for the `played`
/// pitch classes over one of them.
pub open spec fn analysis_explained(a: ChordAnalysis, played: Set<int>) -> bool {
    exists|c: AnalysisCandidate|
        reading_explains(c, played, c.bass.spec_value() as int) && #[trigger] analysis_of(a, c)
}

/// An analysis written out from a reading that accounts for `played` is
/// explained.
proof fn lemma_analysis_explained(a: ChordAnalysis, c: AnalysisCandidate, played: Set<int>)
    requires
        reading_explains(c, played, c.bass.spec_value() as int),
        analysis_of(a, c),
    ensures
        analysis_explained(a, played),
{
}

/// Appending an explained analysis keeps every analysis explained.
proof fn lemma_built_step(before: Seq<BuiltAnalysis>, b: BuiltAnalysis, after: Seq<BuiltAnalysis>, played: Set<int>)
    requires
        forall|j: int| 0 <= j < before.len() ==> built_ok(#[trigger] before[j], played),
        built_ok(b, played),
        after == before.push(b),
    ensures
        forall|j: int| 0 <= j < after.len() ==> built_ok(#[trigger] after[j], played),
{
    assert forall|j: int| 0 <= j < after.len() implies built_ok(#[trigger] after[j], played) by {
        if j < before.len() {
            assert(after[j] == before[j]);
        } else {
            assert(after[j] == b);
        }
    }
}

/// A written-out reading with its interval labels and spellings in range,
/// explained by a reading of the played set.
spec fn built_ok(b: BuiltAnalysis, played: Set<int>) -> bool {
    intervals_wf(b.intervals@) && b.spellings@.len() == 12 && analysis_explained(b.analysis, played)
}

/// The pitch classes of some played notes.
pub open spec fn played_pitches(notes: Seq<PlayedNote>) -> Set<int> {
    Set::new(|p: int| exists|i: int| 0 <= i < notes.len() && #[trigger] notes[i].pitch_class == p)
}

/// Writes out a reading: its symbol, notes, intervals and omissions, and the
/// spelling of each pitch class it names.
#[verifier::rlimit(80)]
fn build_analysis(c: &AnalysisCandidate) -> (b: BuiltAnalysis)
    requires
        -2 <= c.root.accidental <= 2,
        c.omissions < 8,
    ensures
        b.spellings@.len() == 12,
        intervals_wf(b.intervals@),
        b.analysis.score == c.score,
        b.analysis.class == AnalysisClass::TheoreticalAlias,
        b.root == c.root,
        b.omissions == c.omissions,
        b.analysis.confidence == (if c.omitted {
            Confidence::Omitted
        } else {
            Confidence::Exact
        }),
        analysis_of(b.analysis, *c),
{
    let formula = ChordFormula::from_parts(c.root, &c.spec);
    let bass_tone = formula.tone_for_pitch(c.bass);
    let bass_name = match bass_tone {
        Some(t) => t.note,
        None => slash_bass_name(c.root, c.bass),
    };
    proof {
        let tones = reading_tones(*c);
        let p = c.bass.spec_value() as int;
        assert(formula.tones@ == tones);
        if let Some(t) = bass_tone {
            let j = choose|j: int|
                0 <= j < tones.len() && tones[j] == t && t.pitch_class == p && forall|k: int|
                    0 <= k < j ==> #[trigger] tones[k].pitch_class != p;
            assert(first_tone_at(tones, j, p));
            let i = choose|i: int| #[trigger] first_tone_at(tones, i, p);
            if i < j {
                assert(tones[i].pitch_class == p);
            } else if j < i {
                assert(tones[j].pitch_class == p);
            }
        } else {
            assert(!exists|i: int| #[trigger] first_tone_at(tones, i, p)) by {
                if exists|i: int| #[trigger] first_tone_at(tones, i, p) {
                    let i = choose|i: int| #[trigger] first_tone_at(tones, i, p);
                    assert(tones[i].pitch_class == p);
                }
            }
        }
        reveal(reading_bass_name);
        assert(bass_name == reading_bass_name(*c));
    }
    let mut spellings: Vec<Option<NoteName>> = Vec::new();
    let mut p: usize = 0;
    while p < 12
        invariant
            0 <= p <= 12,
            spellings@.len() == p,
        decreases 12 - p,
    {
        spellings.push(None);
        p += 1;
    }
    let mut notes: Vec<String> = Vec::new();
    let mut interval_names: Vec<String> = Vec::new();
    let mut intervals: Vec<IntervalName> = Vec::new();
    let mut i: usize = 0;
    while i < formula.tones.len()
        invariant
            0 <= i <= formula.tones@.len(),
            formula.wf(),
            formula.tones@ == reading_tones(*c),
            spellings@.len() == 12,
            intervals_wf(intervals@),
            notes@.len() == i,
            interval_names@.len() == i,
            forall|j: int| 0 <= j < i ==> (#[trigger] notes@[j])@ == note_text(formula.tones@[j].note),
            forall|j: int|
                0 <= j < i ==> (#[trigger] interval_names@[j])@ == interval_text(formula.tones@[j].interval),
        decreases formula.tones@.len() - i,
    {
        let tone = formula.tones[i];
        assert(tone_wf(formula.tones@[i as int]));
        spellings.set(tone.pitch_class as usize, Some(tone.note));
        notes.push(tone.note.to_string());
        interval_names.push(tone.interval.to_string());
        intervals.push(tone.interval);
        i += 1;
    }
    spellings.set(c.bass.value() as usize, Some(bass_name));
    let mut symbol: Vec<char> = Vec::new();
    c.root.push_text(&mut symbol);
    c.spec.push_suffix(&mut symbol);
    let ghost head = symbol@;
    if c.omissions & 1 != 0 {
        push_str(&mut symbol, "no1");
    }
    let ghost with_root = symbol@;
    if c.omissions & 2 != 0 {
        push_str(&mut symbol, "no3");
    }
    let ghost with_third = symbol@;
    let bass_visible = c.bass.value() != c.root.pitch_class().value() && c.show_chord_tone_bass;
    if bass_visible {
        symbol.push('/');
        bass_name.push_text(&mut symbol);
    }
    proof {
        assert(head == note_text(c.root) + suffix_text(c.spec));
        assert(with_root == head + (if c.omissions & 1 != 0 {
            "no1"@
        } else {
            seq![]
        }));
        assert(with_third == with_root + (if c.omissions & 2 != 0 {
            "no3"@
        } else {
            seq![]
        }));
        assert(bass_visible == crate::identify::bass_visible(*c));
        reveal(reading_symbol);
        assert(symbol@ =~= reading_symbol(*c));
    }
    BuiltAnalysis {
        analysis: ChordAnalysis {
            symbol: chars_to_string(&symbol),
            root: c.root.to_string(),
            bass: bass_name.to_string(),
            notes,
            intervals: interval_names,
            omissions: omission_strings(c.omissions),
            confidence: if c.omitted {
                Confidence::Omitted
            } else {
                Confidence::Exact
            },
            class: AnalysisClass::TheoreticalAlias,
            score: c.score,
        },
        spellings,
        root: c.root,
        omissions: c.omissions,
        intervals,
    }
}

/// Whether an interval is `degree` shifted by `delta`, as in `b7` or `#9`.
fn interval_is(i: IntervalName, degree: u8, delta: i16) -> (b: bool)
    requires
        degree_position(i.degree as int) >= 0,
        -100 <= i.semitones <= 100,
    ensures
        b == (i.degree == degree && i.semitones - natural_of(i.degree as int) == delta),
{
    i.degree == degree && i.semitones - natural_semitones(i.degree) == delta
}

/// Some interval of `v` is `degree` shifted by `delta`.
pub open spec fn labelled(v: Seq<IntervalName>, degree: int, delta: int) -> bool {
    exists|k: int| 0 <= k < v.len() && #[trigger] v[k].degree == degree && v[k].semitones - natural_of(
        degree,
    ) == delta
}

/// `i` is `degree` shifted by `delta`.
pub open spec fn interval_label_is(i: IntervalName, degree: int, delta: int) -> bool {
    i.degree == degree && i.semitones - natural_of(i.degree as int) == delta
}

/// The intervals kept in plain alias names: 1 2 b3 3 4 b5 5 #5 6 bb7 b7 7 9 11 13.
pub open spec fn stable_interval(i: IntervalName) -> bool {
    interval_label_is(i, 1, 0) || interval_label_is(i, 2, 0) || interval_label_is(i, 3, -1)
        || interval_label_is(i, 3, 0) || interval_label_is(i, 4, 0) || interval_label_is(i, 5, -1)
        || interval_label_is(i, 5, 0) || interval_label_is(i, 5, 1) || interval_label_is(i, 6, 0)
        || interval_label_is(i, 7, -2) || interval_label_is(i, 7, -1) || interval_label_is(i, 7, 0)
        || interval_label_is(i, 9, 0) || interval_label_is(i, 11, 0) || interval_label_is(i, 13, 0)
}

/// A rootless reading over a seventh with an upper extension, with enough
/// tones left or a dominant ninth shell or altered upper structure, and a
/// perfect fifth if any.
pub open spec fn useful_rootless_upper(v: Seq<IntervalName>, omissions: u8) -> bool {
    let count = (if omissions & 1 != 0 { 1int } else { 0 }) + (if omissions & 2 != 0 { 1int } else { 0 })
        + (if omissions & 4 != 0 { 1int } else { 0 });
    let enough = v.len() >= count + 4;
    let dominant_ninth_shell = labelled(v, 3, 0) && labelled(v, 7, -1) && labelled(v, 9, 0);
    let altered_dominant_upper = labelled(v, 7, -1) && (labelled(v, 9, -1) || labelled(v, 9, 1)
        || labelled(v, 11, 1) || labelled(v, 13, -1));
    omissions & 1 != 0 && omissions & 2 == 0 && (enough || dominant_ninth_shell || altered_dominant_upper)
        && !(labelled(v, 5, -1) || labelled(v, 5, 1)) && (labelled(v, 7, -1) || labelled(v, 7, 0)) && (
    labelled(v, 9, -1) || labelled(v, 9, 0) || labelled(v, 9, 1) || labelled(v, 11, 0) || labelled(v, 11, 1)
        || labelled(v, 13, -1) || labelled(v, 13, 0))
}

/// An altered dominant without root and third.
pub open spec fn useful_altered_upper(v: Seq<IntervalName>, omissions: u8) -> bool {
    omissions & 1 != 0 && omissions & 2 != 0 && omissions & 4 == 0 && labelled(v, 7, -1) && labelled(v, 9, -1)
        && labelled(v, 9, 1) && labelled(v, 13, -1)
}

/// A diminished seventh without its root.
pub open spec fn useful_rootless_diminished_seventh(v: Seq<IntervalName>, omissions: u8) -> bool {
    omissions == 1 && labelled(v, 3, -1) && labelled(v, 5, -1) && labelled(v, 7, -2)
}

/// A half-diminished seventh without its root.
pub open spec fn useful_rootless_half_diminished(v: Seq<IntervalName>, omissions: u8) -> bool {
    omissions == 1 && v.len() == 4 && labelled(v, 3, -1) && labelled(v, 5, -1) && labelled(v, 7, -1)
}

/// An omitted reading worth showing: only the fifth left out, or one of the
/// useful rootless shapes.
pub open spec fn useful_omitted(v: Seq<IntervalName>, omissions: u8) -> bool {
    omissions == 4 || useful_rootless_upper(v, omissions) || useful_altered_upper(v, omissions)
        || useful_rootless_diminished_seventh(v, omissions) || useful_rootless_half_diminished(v, omissions)
}

/// How an alias is shown: theoretical when it scores more than 180 above
/// the primary or has an edge root spelling; else an omitted reading is
/// useful when its shape is, and an exact one when it has at most four
/// intervals, all stable.
pub open spec fn alias_class_of(score: int, primary_score: int, root: NoteName, confidence: Confidence, v: Seq<
    IntervalName,
>, omissions: u8) -> AnalysisClass {
    if score > primary_score + 180 || edge_root(root) {
        AnalysisClass::TheoreticalAlias
    } else if confidence == Confidence::Omitted {
        if useful_omitted(v, omissions) {
            AnalysisClass::UsefulAlias
        } else {
            AnalysisClass::TheoreticalAlias
        }
    } else if v.len() <= 4 && (forall|k: int| 0 <= k < v.len() ==> stable_interval(#[trigger] v[k])) {
        AnalysisClass::UsefulAlias
    } else {
        AnalysisClass::TheoreticalAlias
    }
}

/// Whether some interval of `v` is `degree` shifted by `delta`.
fn has_interval_label(v: &Vec<IntervalName>, degree: u8, delta: i16) -> (b: bool)
    requires
        intervals_wf(v@),
    ensures
        b == labelled(v@, degree as int, delta as int),
{
    let mut k: usize = 0;
    while k < v.len()
        invariant
            0 <= k <= v@.len(),
            intervals_wf(v@),
            forall|j: int| 0 <= j < k ==> !(#[trigger] v@[j].degree == degree && v@[j].semitones
                - natural_of(degree as int) == delta),
        decreases v@.len() - k,
    {
        if interval_is(v[k], degree, delta) {
            return true;
        }
        k += 1;
    }
    false
}

/// The intervals kept in plain alias names: 1 2 b3 3 4 b5 5 #5 6 bb7 b7 7 9 11 13.
fn is_stable_alias_interval(i: IntervalName) -> (b: bool)
    requires
        degree_position(i.degree as int) >= 0,
        -100 <= i.semitones <= 100,
    ensures
        b == stable_interval(i),
{
    interval_is(i, 1, 0) || interval_is(i, 2, 0) || interval_is(i, 3, -1) || interval_is(i, 3, 0)
        || interval_is(i, 4, 0) || interval_is(i, 5, -1) || interval_is(i, 5, 0) || interval_is(
        i,
        5,
        1,
    ) || interval_is(i, 6, 0) || interval_is(i, 7, -2) || interval_is(i, 7, -1) || interval_is(
        i,
        7,
        0,
    ) || interval_is(i, 9, 0) || interval_is(i, 11, 0) || interval_is(i, 13, 0)
}

/// Whether every interval is stable.
fn all_stable_intervals(v: &Vec<IntervalName>) -> (b: bool)
    requires
        intervals_wf(v@),
    ensures
        b == forall|k: int| 0 <= k < v@.len() ==> stable_interval(#[trigger] v@[k]),
{
    let mut k: usize = 0;
    while k < v.len()
        invariant
            0 <= k <= v@.len(),
            intervals_wf(v@),
            forall|j: int| 0 <= j < k ==> stable_interval(#[trigger] v@[j]),
        decreases v@.len() - k,
    {
        if !is_stable_alias_interval(v[k]) {
            return false;
        }
        k += 1;
    }
    true
}

/// The theoretical root spellings B#, E#, Cb and Fb.
pub open spec fn edge_root(root: NoteName) -> bool {
    (root.letter == NoteLetter::B && root.accidental == 1) || (root.letter == NoteLetter::E
        && root.accidental == 1) || (root.letter == NoteLetter::C && root.accidental == -1) || (
    root.letter == NoteLetter::F && root.accidental == -1)
}

fn is_edge_root_spelling(root: NoteName) -> (b: bool)
    ensures
        b == edge_root(root),
{
    (root.letter == NoteLetter::B && root.accidental == 1) || (root.letter == NoteLetter::E
        && root.accidental == 1) || (root.letter == NoteLetter::C && root.accidental == -1) || (
    root.letter == NoteLetter::F && root.accidental == -1)
}

/// Some interval is a seventh or an upper extension, in the sense used by
/// rootless readings.
fn is_useful_rootless_upper_alias(b: &BuiltAnalysis) -> (r: bool)
    requires
        intervals_wf(b.intervals@),
    ensures
        r == useful_rootless_upper(b.intervals@, b.omissions),
{
    let v = &b.intervals;
    let count = omission_count(b.omissions);
    let enough = v.len() >= count + 4;
    let dominant_ninth_shell = has_interval_label(v, 3, 0) && has_interval_label(v, 7, -1)
        && has_interval_label(v, 9, 0);
    let altered_dominant_upper = has_interval_label(v, 7, -1) && (has_interval_label(v, 9, -1)
        || has_interval_label(v, 9, 1) || has_interval_label(v, 11, 1) || has_interval_label(
        v,
        13,
        -1,
    ));
    b.omissions & 1 != 0 && b.omissions & 2 == 0 && (enough || dominant_ninth_shell
        || altered_dominant_upper) && !(has_interval_label(v, 5, -1) || has_interval_label(v, 5, 1))
        && (has_interval_label(v, 7, -1) || has_interval_label(v, 7, 0)) && (has_interval_label(
        v,
        9,
        -1,
    ) || has_interval_label(v, 9, 0) || has_interval_label(v, 9, 1) || has_interval_label(v, 11, 0)
        || has_interval_label(v, 11, 1) || has_interval_label(v, 13, -1) || has_interval_label(
        v,
        13,
        0,
    ))
}

/// An altered dominant without root and third.
fn is_useful_altered_upper_alias(b: &BuiltAnalysis) -> (r: bool)
    requires
        intervals_wf(b.intervals@),
    ensures
        r == useful_altered_upper(b.intervals@, b.omissions),
{
    let v = &b.intervals;
    b.omissions & 1 != 0 && b.omissions & 2 != 0 && b.omissions & 4 == 0 && has_interval_label(
        v,
        7,
        -1,
    ) && has_interval_label(v, 9, -1) && has_interval_label(v, 9, 1) && has_interval_label(v, 13, -1)
}

/// A diminished seventh without its root.
fn is_useful_rootless_diminished_seventh_alias(b: &BuiltAnalysis) -> (r: bool)
    requires
        intervals_wf(b.intervals@),
    ensures
        r == useful_rootless_diminished_seventh(b.intervals@, b.omissions),
{
    let v = &b.intervals;
    b.omissions == 1 && has_interval_label(v, 3, -1) && has_interval_label(v, 5, -1)
        && has_interval_label(v, 7, -2)
}

/// A half-diminished seventh without its root.
fn is_useful_rootless_half_diminished_alias(b: &BuiltAnalysis) -> (r: bool)
    requires
        intervals_wf(b.intervals@),
    ensures
        r == useful_rootless_half_diminished(b.intervals@, b.omissions),
{
    let v = &b.intervals;
    b.omissions == 1 && v.len() == 4 && has_interval_label(v, 3, -1) && has_interval_label(v, 5, -1)
        && has_interval_label(v, 7, -1)
}

/// Whether an omitted reading is worth showing.
fn is_useful_omitted_alias(b: &BuiltAnalysis) -> (r: bool)
    requires
        intervals_wf(b.intervals@),
    ensures
        r == useful_omitted(b.intervals@, b.omissions),
{
    if b.omissions == 4 {
        return true;
    }
    is_useful_rootless_upper_alias(b) || is_useful_altered_upper_alias(b)
        || is_useful_rootless_diminished_seventh_alias(b) || is_useful_rootless_half_diminished_alias(b)
}

/// Classifies an alias as useful or theoretical against the primary score.
fn classify_alias(b: &BuiltAnalysis, primary_score: u32) -> (class: AnalysisClass)
    requires
        intervals_wf(b.intervals@),
    ensures
        class != AnalysisClass::Primary,
        b.analysis.score > primary_score + 180 ==> class == AnalysisClass::TheoreticalAlias,
        edge_root(b.root) ==> class == AnalysisClass::TheoreticalAlias,
        class == alias_class_of(
            b.analysis.score as int,
            primary_score as int,
            b.root,
            b.analysis.confidence,
            b.intervals@,
            b.omissions,
        ),
{
    if b.analysis.score > primary_score.saturating_add(180) {
        return AnalysisClass::TheoreticalAlias;
    }
    if is_edge_root_spelling(b.root) {
        return AnalysisClass::TheoreticalAlias;
    }
    if b.analysis.confidence == Confidence::Omitted {
        return if is_useful_omitted_alias(b) {
            AnalysisClass::UsefulAlias
        } else {
            AnalysisClass::TheoreticalAlias
        };
    }
    if b.intervals.len() <= 4 && all_stable_intervals(&b.intervals) {
        AnalysisClass::UsefulAlias
    } else {
        AnalysisClass::TheoreticalAlias
    }
}

/// Respelling keeps each played note's string, fret and pitch class.
proof fn lemma_played_respelled(a: Seq<PlayedNote>, b: Seq<PlayedNote>, fingering: &Fingering, tuning: &Tuning)
    requires
        played_in_order(a, fingering, tuning),
        b.len() == a.len(),
        forall|i: int| 0 <= i < a.len() ==> (#[trigger] b[i]).string == a[i].string && b[i].fret == a[i].fret
            && b[i].pitch_class == a[i].pitch_class,
    ensures
        played_in_order(b, fingering, tuning),
{
    assert forall|i: int, j: int| 0 <= i < j < b.len() implies #[trigger] b[i].string < #[trigger] b[j].string by {
        assert(a[i].string < a[j].string);
    }
    assert forall|st: int|
        0 <= st < fingering.spec_string_count() && #[trigger] fingering.spec_fret(st) is Some implies exists|i: int|
            0 <= i < b.len() && #[trigger] b[i].string == st by {
        let i = choose|i: int| 0 <= i < a.len() && #[trigger] a[i].string == st;
        assert(b[i].string == st);
    }
}

/// Respells the played notes with the primary reading's spellings, where
/// they use at most one accidental.
fn respell_played_notes(notes: &Vec<PlayedNote>, spellings: Option<&Vec<Option<NoteName>>>) -> (out:
    Vec<PlayedNote>)
    requires
        forall|i: int| 0 <= i < notes@.len() ==> #[trigger] notes@[i].pitch_class < 12,
        spellings matches Some(s) ==> s@.len() == 12,
    ensures
        out@.len() == notes@.len(),
        forall|i: int| 0 <= i < notes@.len() ==> (#[trigger] out@[i]).string == notes@[i].string
            && out@[i].fret == notes@[i].fret && out@[i].pitch_class == notes@[i].pitch_class,
{
    let mut out: Vec<PlayedNote> = Vec::new();
    let mut i: usize = 0;
    while i < notes.len()
        invariant
            0 <= i <= notes@.len(),
            out@.len() == i,
            forall|i: int| 0 <= i < notes@.len() ==> #[trigger] notes@[i].pitch_class < 12,
            spellings matches Some(s) ==> s@.len() == 12,
            forall|j: int| 0 <= j < i ==> (#[trigger] out@[j]).string == notes@[j].string
                && out@[j].fret == notes@[j].fret && out@[j].pitch_class == notes@[j].pitch_class,
        decreases notes@.len() - i,
    {
        let mut played = notes[i];
        if let Some(s) = spellings {
            if let Some(note) = s[played.pitch_class as usize] {
                if -1 <= note.accidental && note.accidental <= 1 {
                    played.note = note;
                }
            }
        }
        out.push(played);
        i += 1;
    }
    out
}

/// Identifies a six-string fingering in standard tuning.
pub fn identify(input: &str) -> (r: Result<IdentifyResult, ChordClawError>)
    ensures
        r is Ok <==> fingering_frets(trimmed(input@), 6) is Some,
        crate::notes::fingering_error(trimmed(input@), 6, input@.len()) matches Some(m) ==> (r matches Err(e)
            && e.spec_message() == m),
        r matches Ok(res) ==> exists|f: Fingering, t: Tuning|
            fingering_read(f, input@, 6) && standard_guitar(t) && #[trigger] identified(res, f, t),
        r matches Ok(res) ==> res.aliases@.len() <= 24,
        r matches Ok(res) ==> (res.primary matches Some(a) ==> analysis_explained(
            a,
            played_pitches(res.notes@),
        )),
        r matches Ok(res) ==> forall|i: int|
            0 <= i < res.aliases@.len() ==> analysis_explained(
                #[trigger] res.aliases@[i],
                played_pitches(res.notes@),
            ),
{
    identify_with_tuning(input, standard_tuning())
}

/// Identifies a fingering written for `tuning`.
pub fn identify_with_tuning(input: &str, tuning: Tuning) -> (r: Result<
    IdentifyResult,
    ChordClawError,
>)
    ensures
        r is Ok <==> fingering_frets(trimmed(input@), tuning.spec_string_count()) is Some,
        crate::notes::fingering_error(trimmed(input@), tuning.spec_string_count(), input@.len()) matches Some(m)
            ==> (r matches Err(e) && e.spec_message() == m),
        r matches Ok(res) ==> exists|f: Fingering|
            fingering_read(f, input@, tuning.spec_string_count()) && #[trigger] identified(res, f, tuning),
        r matches Ok(res) ==> res.aliases@.len() <= 24,
        r matches Ok(res) ==> (res.primary matches Some(a) ==> analysis_explained(
            a,
            played_pitches(res.notes@),
        )),
        r matches Ok(res) ==> forall|i: int|
            0 <= i < res.aliases@.len() ==> analysis_explained(
                #[trigger] res.aliases@[i],
                played_pitches(res.notes@),
            ),
{
    let fingering = Fingering::parse_with_string_count(input, tuning.string_count())?;
    identify_fingering_with_tuning(&fingering, tuning)
}

/// Identifies a parsed six-string fingering in standard tuning.
pub fn identify_fingering(fingering: &Fingering) -> (r: Result<IdentifyResult, ChordClawError>)
    ensures
        r is Err <==> fingering.spec_string_count() != 6,
        r matches Ok(res) ==> exists|t: Tuning| standard_guitar(t) && #[trigger] identified(res, *fingering, t),
        r matches Ok(res) ==> res.aliases@.len() <= 24,
        r matches Ok(res) ==> (res.primary matches Some(a) ==> analysis_explained(
            a,
            played_pitches(res.notes@),
        )),
        r matches Ok(res) ==> forall|i: int|
            0 <= i < res.aliases@.len() ==> analysis_explained(
                #[trigger] res.aliases@[i],
                played_pitches(res.notes@),
            ),
{
    identify_fingering_with_tuning(fingering, standard_tuning())
}

/// Writes out every reading of `set`, in order.
#[verifier::rlimit(60)]
fn build_readings(set: &AnalysisCandidateSet, Ghost(pp): Ghost<Set<int>>) -> (built: Vec<BuiltAnalysis>)
    requires
        set.wf(),
        forall|j: int|
            0 <= j < set.items@.len() ==> reading_explains(
                #[trigger] set.items@[j],
                pp,
                set.items@[j].bass.spec_value() as int,
            ),
    ensures
        built@.len() == set.items@.len(),
        forall|j: int| 0 <= j < built@.len() ==> built_ok(#[trigger] built@[j], pp),
        forall|j: int| 0 <= j < built@.len() ==> analysis_of((#[trigger] built@[j]).analysis, set.items@[j]),
{
    let mut built: Vec<BuiltAnalysis> = Vec::new();
    let mut i: usize = 0;
    while i < set.items.len()
        invariant
            0 <= i <= set.items@.len(),
            set.wf(),
            built@.len() == i,
            forall|j: int|
                0 <= j < set.items@.len() ==> reading_explains(
                    #[trigger] set.items@[j],
                    pp,
                    set.items@[j].bass.spec_value() as int,
                ),
            forall|j: int| 0 <= j < i ==> built_ok(#[trigger] built@[j], pp),
            forall|j: int| 0 <= j < i ==> analysis_of((#[trigger] built@[j]).analysis, set.items@[j]),
        decreases set.items@.len() - i,
    {
        assert(-2 <= set.items@[i as int].root.accidental <= 2);
        let b = build_analysis(&set.items[i]);
        let ghost before = built@;
        let ghost gb = b;
        proof {
            let c = set.items@[i as int];
            assert(reading_explains(c, pp, c.bass.spec_value() as int));
            lemma_analysis_explained(gb.analysis, c, pp);
        }
        built.push(b);
        proof {
            lemma_built_step(before, gb, built@, pp);
            assert forall|j: int| 0 <= j < i + 1 implies analysis_of((#[trigger] built@[j]).analysis, set.items@[j]) by {
                if j < i {
                    assert(built@[j] == before[j]);
                }
            }
        }
        i += 1;
    }
    built
}

/// The readings after the primary, up to 24, each classed as an alias of
/// the primary's score.
#[verifier::rlimit(80)]
fn collect_aliases(
    rest: Vec<BuiltAnalysis>,
    primary_score: u32,
    Ghost(items): Ghost<Seq<AnalysisCandidate>>,
    Ghost(pp): Ghost<Set<int>>,
) -> (aliases: Vec<ChordAnalysis>)
    requires
        rest@.len() + 1 == items.len(),
        forall|j: int| 0 <= j < rest@.len() ==> built_ok(#[trigger] rest@[j], pp),
        forall|j: int| 0 <= j < rest@.len() ==> analysis_of((#[trigger] rest@[j]).analysis, items[j + 1]),
    ensures
        aliases@.len() == (if rest@.len() < 24 {
            rest@.len() as int
        } else {
            24
        }),
        forall|j: int| 0 <= j < aliases@.len() ==> (#[trigger] aliases@[j]).class != AnalysisClass::Primary,
        forall|j: int| 0 <= j < aliases@.len() ==> analysis_explained(#[trigger] aliases@[j], pp),
        forall|j: int| 0 <= j < aliases@.len() ==> analysis_of(#[trigger] aliases@[j], items[j + 1]),
{
    let mut rest = rest;
    let ghost all = rest@;
    let mut aliases: Vec<ChordAnalysis> = Vec::new();
    while rest.len() > 0 && aliases.len() < 24
        invariant
            aliases@.len() <= 24,
            all.len() + 1 == items.len(),
            forall|j: int| 0 <= j < all.len() ==> built_ok(#[trigger] all[j], pp),
            forall|j: int| 0 <= j < all.len() ==> analysis_of((#[trigger] all[j]).analysis, items[j + 1]),
            aliases@.len() <= all.len(),
            rest@ == all.subrange(aliases@.len() as int, all.len() as int),
            forall|j: int| 0 <= j < aliases@.len() ==> (#[trigger] aliases@[j]).class != AnalysisClass::Primary,
            forall|j: int| 0 <= j < aliases@.len() ==> analysis_explained(#[trigger] aliases@[j], pp),
            forall|j: int| 0 <= j < aliases@.len() ==> analysis_of(#[trigger] aliases@[j], items[j + 1]),
        decreases rest@.len(),
    {
        let ghost k = aliases@.len() as int;
        let ghost before = rest@;
        let b = rest.remove(0);
        proof {
            assert(before[0] == all[k]);
            assert(rest@ =~= all.subrange(k + 1, all.len() as int));
            assert(built_ok(all[k], pp));
        }
        let class = classify_alias(&b, primary_score);
        let ghost explained = b.analysis;
        let mut analysis = b.analysis;
        analysis.class = class;
        proof {
            let c = choose|c: AnalysisCandidate|
                reading_explains(c, pp, c.bass.spec_value() as int) && #[trigger] analysis_of(explained, c);
            assert(analysis_of(analysis, c));
            assert(analysis_of(explained, items[k + 1]));
        }
        let ghost old_aliases = aliases@;
        aliases.push(analysis);
        proof {
            assert forall|j: int| 0 <= j < aliases@.len() implies analysis_explained(#[trigger] aliases@[j], pp)
                && aliases@[j].class != AnalysisClass::Primary && analysis_of(aliases@[j], items[j + 1]) by {
                if j < old_aliases.len() {
                    assert(aliases@[j] == old_aliases[j]);
                }
            }
        }
    }
    aliases
}

/// `f` is the fingering that `input` spells for `count` strings.
pub open spec fn fingering_read(f: Fingering, input: Seq<char>, count: nat) -> bool {
    &&& f.spec_string_count() == count
    &&& fingering_frets(trimmed(input), count) is Some
    &&& forall|k: int| 0 <= k < count ==> #[trigger] f.spec_fret(k) == fingering_frets(trimmed(input), count)->0[k]
}

/// `t` is standard six-string guitar tuning E A D G B E.
pub open spec fn standard_guitar(t: Tuning) -> bool {
    &&& t.spec_instrument() == crate::notes::Instrument::Guitar
    &&& t.spec_string_count() == 6
    &&& forall|i: int| 0 <= i < 6 ==> #[trigger] t.spec_note(i) == crate::notes::guitar_standard_notes()[i]
    &&& crate::notes::open_pitches_stacked(t)
}

/// The result lists the readings of `set` in order: the first as primary,
/// then up to 24 more as aliases; no readings where fewer than two pitch
/// classes sound, and some where a candidate reads `played` exactly.
#[verifier::opaque]
pub open spec fn ranked_readings(res: IdentifyResult, set: AnalysisCandidateSet, played: Set<int>) -> bool {
    &&& set.wf()
    &&& forall|i: int| 0 <= i < set.items@.len() ==> reading_explains(
        #[trigger] set.items@[i],
        played,
        set.items@[i].bass.spec_value() as int,
    )
    &&& forall|i: int| 0 <= i < set.items@.len() ==> reading_scored(#[trigger] set.items@[i])
    &&& (res.primary is None <==> set.items@.len() == 0)
    &&& (res.primary matches Some(p) ==> analysis_of(p, set.items@[0]))
    &&& res.aliases@.len() == (if set.items@.len() == 0 {
        0
    } else if set.items@.len() - 1 < 24 {
        set.items@.len() - 1
    } else {
        24
    })
    &&& forall|j: int| 0 <= j < res.aliases@.len() ==> analysis_of(#[trigger] res.aliases@[j], set.items@[j + 1])
    &&& !two_pitches(played) ==> set.items@.len() == 0
    &&& two_pitches(played) && exact_reading(played) ==> set.items@.len() > 0
}

/// What identifying fingering `f` on `t` gives: its text, its notes in
/// string order, and its readings ranked, the primary marked as such.
pub open spec fn identified(res: IdentifyResult, f: Fingering, t: Tuning) -> bool {
    let pp = played_pitches(res.notes@);
    &&& res.fingering@ == crate::notes::fingering_text(&f, f.spec_has_double_digits())
    &&& played_in_order(res.notes@, &f, &t)
    &&& (res.primary matches Some(p) ==> p.class == AnalysisClass::Primary)
    &&& forall|i: int| 0 <= i < res.aliases@.len() ==> (#[trigger] res.aliases@[i]).class != AnalysisClass::Primary
    &&& exists|set: AnalysisCandidateSet| #[trigger] ranked_readings(res, set, pp)
}

/// Identifies a parsed fingering on `tuning`: the played notes, respelled
/// after the best reading, that reading as primary, and up to 24 aliases.
#[verifier::rlimit(80)]
pub fn identify_fingering_with_tuning(fingering: &Fingering, tuning: Tuning) -> (r: Result<
    IdentifyResult,
    ChordClawError,
>)
    ensures
        r is Err <==> fingering.spec_string_count() != tuning.spec_string_count(),
        r matches Err(e) ==> e.spec_message() == "fingering has "@ + decimal(fingering.spec_string_count())
            + " strings but tuning has "@ + decimal(tuning.spec_string_count()),
        r matches Ok(res) ==> identified(res, *fingering, tuning),
        r matches Ok(res) ==> res.aliases@.len() <= 24,
        r matches Ok(res) ==> (res.primary is None ==> res.aliases@.len() == 0),
        r matches Ok(res) ==> (res.primary matches Some(p) ==> p.class == AnalysisClass::Primary),
        r matches Ok(res) ==> forall|i: int| 0 <= i < res.aliases@.len() ==> (#[trigger] res.aliases@[i]).class
            != AnalysisClass::Primary,
        r matches Ok(res) ==> (fingering.spec_has_double_digits() ==> res.fingering@
            == crate::notes::fingering_text(fingering, true)),
        r matches Ok(res) ==> (!fingering.spec_has_double_digits() ==> res.fingering@
            == crate::notes::fingering_text(fingering, false)),
        r matches Ok(res) ==> played_in_order(res.notes@, fingering, &tuning),
        r matches Ok(res) ==> (res.primary matches Some(a) ==> analysis_explained(
            a,
            played_pitches(res.notes@),
        )),
        r matches Ok(res) ==> forall|i: int|
            0 <= i < res.aliases@.len() ==> analysis_explained(
                #[trigger] res.aliases@[i],
                played_pitches(res.notes@),
            ),
{
    if fingering.string_count() != tuning.string_count() {
        let mut msg: Vec<char> = Vec::new();
        push_str(&mut msg, "fingering has ");
        push_usize(&mut msg, fingering.string_count());
        push_str(&mut msg, " strings but tuning has ");
        push_usize(&mut msg, tuning.string_count());
        return Err(ChordClawError::from_chars(&msg));
    }
    let played = play_fingering(fingering, &tuning);
    let set = identify_core(&played, &tuning);
    let ghost pp = played.set.pitches();
    let built = build_readings(&set, Ghost(pp));
    proof {
        assert(played_pitches(played.notes@) =~= pp);
    }
    let fingering_text = fingering.compact();
    if built.len() == 0 {
        let notes = respell_played_notes(&played.notes, None);
        proof {
            lemma_played_respelled(played.notes@, notes@, fingering, &tuning);
            assert(played_pitches(notes@) =~= pp);
        }
        let res = IdentifyResult { fingering: fingering_text, notes, primary: None, aliases: Vec::new() };
        proof {
            lemma_size_two(played.set);
            assert(ranked_readings(res, set, pp)) by {
                reveal(ranked_readings);
            }
        }
        return Ok(res);
    }
    let mut rest = built;
    let ghost all_built = rest@;
    let first = rest.remove(0);
    proof {
        assert(built_ok(all_built[0], pp));
        assert forall|j: int| 0 <= j < rest@.len() implies built_ok(#[trigger] rest@[j], pp) by {
            assert(rest@[j] == all_built[j + 1]);
        }
    }
    assert(intervals_wf(first.intervals@));
    let primary_score = first.analysis.score;
    let notes = respell_played_notes(&played.notes, Some(&first.spellings));
    proof {
        lemma_played_respelled(played.notes@, notes@, fingering, &tuning);
        assert(played_pitches(notes@) =~= pp);
    }
    let ghost explained_first = first.analysis;
    let mut primary = first.analysis;
    primary.class = AnalysisClass::Primary;
    proof {
        let c = choose|c: AnalysisCandidate|
            reading_explains(c, pp, c.bass.spec_value() as int) && #[trigger] analysis_of(explained_first, c);
        assert(analysis_of(primary, c));
    }
    proof {
        assert forall|j: int| 0 <= j < rest@.len() implies analysis_of((#[trigger] rest@[j]).analysis, set.items@[j + 1]) by {
            assert(rest@[j] == all_built[j + 1]);
        }
    }
    let aliases = collect_aliases(rest, primary_score, Ghost(set.items@), Ghost(pp));
    let res = IdentifyResult { fingering: fingering_text, notes, primary: Some(primary), aliases };
    proof {
        lemma_size_two(played.set);
        assert(analysis_of(primary, set.items@[0]));
        assert(ranked_readings(res, set, pp)) by {
            reveal(ranked_readings);
        }
    }
    Ok(res)
}

} // verus!
