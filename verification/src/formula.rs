use vstd::prelude::*;

use crate::bits::{bit16, bit64, clear_bit64, lemma_zero64, set_bit64, test_bit16, test_bit64};
use crate::notes::{
    letter_at, letter_index, note_pitch, note_text, pitch_mod, spelled_accidental, NoteName,
    PitchClass, PitchSet,
};
use crate::parse::normalized_glyphs;
use crate::symbol::{
    slot_accidental, slot_alteration, slot_degree, symbol_text_parts, symbol_valid, ChordSpec,
    ChordSymbol, Extension, Quality, Seventh,
};
use crate::text::{chars_to_string, push_decimal, push_str, trimmed};
use crate::ChordClawError;

verus! {

/// Number of tone slots: ten degrees, each with five accidentals.
pub const TONE_SLOTS: u64 = 50;

/// The chord degrees in order: 1 2 3 4 5 6 7 9 11 13.
pub open spec fn degree_at(i: int) -> int {
    if i == 0 {
        1
    } else if i == 1 {
        2
    } else if i == 2 {
        3
    } else if i == 3 {
        4
    } else if i == 4 {
        5
    } else if i == 5 {
        6
    } else if i == 6 {
        7
    } else if i == 7 {
        9
    } else if i == 8 {
        11
    } else {
        13
    }
}

/// Position of a degree in 1 2 3 4 5 6 7 9 11 13, or -1.
pub open spec fn degree_position(d: int) -> int {
    if d == 1 {
        0
    } else if d == 2 {
        1
    } else if d == 3 {
        2
    } else if d == 4 {
        3
    } else if d == 5 {
        4
    } else if d == 6 {
        5
    } else if d == 7 {
        6
    } else if d == 9 {
        7
    } else if d == 11 {
        8
    } else if d == 13 {
        9
    } else {
        -1
    }
}

/// Semitones of the natural (major or perfect) degree `d`.
pub open spec fn natural_of(d: int) -> int {
    if d == 1 {
        0
    } else if d == 2 {
        2
    } else if d == 3 {
        4
    } else if d == 4 {
        5
    } else if d == 5 {
        7
    } else if d == 6 {
        9
    } else if d == 7 {
        11
    } else if d == 9 {
        14
    } else if d == 11 {
        17
    } else {
        21
    }
}

/// Letter steps from the root to degree `d`.
pub open spec fn letter_steps(d: int) -> int {
    if d == 1 {
        0
    } else if d == 2 || d == 9 {
        1
    } else if d == 3 {
        2
    } else if d == 4 || d == 11 {
        3
    } else if d == 5 {
        4
    } else if d == 6 || d == 13 {
        5
    } else {
        6
    }
}

/// Degree of tone slot `k`.
pub open spec fn tone_degree(k: int) -> int {
    degree_at(k / 5)
}

/// Semitones of tone slot `k`: the natural degree shifted by -2..=2.
pub open spec fn tone_semitones(k: int) -> int {
    natural_of(tone_degree(k)) + (k % 5) - 2
}

/// Slot of a degree with the given semitones.
pub open spec fn tone_slot(d: int, semitones: int) -> int {
    degree_position(d) * 5 + (semitones - natural_of(d)) + 2
}

/// Semitones of the natural degree `degree`.
pub fn natural_semitones(degree: u8) -> (s: i16)
    requires
        degree_position(degree as int) >= 0,
    ensures
        s == natural_of(degree as int),
{
    if degree == 1 {
        0
    } else if degree == 2 {
        2
    } else if degree == 3 {
        4
    } else if degree == 4 {
        5
    } else if degree == 5 {
        7
    } else if degree == 6 {
        9
    } else if degree == 7 {
        11
    } else if degree == 9 {
        14
    } else if degree == 11 {
        17
    } else {
        21
    }
}

fn degree_pos(degree: u8) -> (p: u64)
    requires
        degree_position(degree as int) >= 0,
    ensures
        p == degree_position(degree as int),
        p < 10,
{
    if degree == 1 {
        0
    } else if degree == 2 {
        1
    } else if degree == 3 {
        2
    } else if degree == 4 {
        3
    } else if degree == 5 {
        4
    } else if degree == 6 {
        5
    } else if degree == 7 {
        6
    } else if degree == 9 {
        7
    } else if degree == 11 {
        8
    } else {
        9
    }
}

fn degree_of_slot(k: u64) -> (d: u8)
    requires
        k < 50,
    ensures
        d == tone_degree(k as int),
        degree_position(d as int) == k / 5,
{
    let i = k / 5;
    if i == 0 {
        1
    } else if i == 1 {
        2
    } else if i == 2 {
        3
    } else if i == 3 {
        4
    } else if i == 4 {
        5
    } else if i == 5 {
        6
    } else if i == 6 {
        7
    } else if i == 7 {
        9
    } else if i == 8 {
        11
    } else {
        13
    }
}

/// Letter steps from the root to `degree`.
pub fn degree_letter_steps(degree: u8) -> (s: u8)
    requires
        degree_position(degree as int) >= 0,
    ensures
        s == letter_steps(degree as int),
{
    if degree == 1 {
        0
    } else if degree == 2 || degree == 9 {
        1
    } else if degree == 3 {
        2
    } else if degree == 4 || degree == 11 {
        3
    } else if degree == 5 {
        4
    } else if degree == 6 || degree == 13 {
        5
    } else {
        6
    }
}

/// Slot bit of a tone, as a mask.
pub open spec fn tone_bit(d: int, semitones: int) -> u64 {
    1u64 << (tone_slot(d, semitones) as u64)
}

/// Tones of a quality's triad, beside the root.
pub open spec fn quality_bits(q: Quality) -> u64 {
    match q {
        Quality::Major => tone_bit(3, 4) | tone_bit(5, 7),
        Quality::Minor => tone_bit(3, 3) | tone_bit(5, 7),
        Quality::Diminished => tone_bit(3, 3) | tone_bit(5, 6),
        Quality::Augmented => tone_bit(3, 4) | tone_bit(5, 8),
        Quality::Sus2 => tone_bit(2, 2) | tone_bit(5, 7),
        Quality::Sus4 => tone_bit(4, 5) | tone_bit(5, 7),
        Quality::Power => tone_bit(5, 7),
    }
}

/// Tone of a seventh.
pub open spec fn seventh_bits(s: Seventh) -> u64 {
    match s {
        Seventh::Absent => 0,
        Seventh::Minor => tone_bit(7, 10),
        Seventh::Major => tone_bit(7, 11),
        Seventh::Diminished => tone_bit(7, 9),
    }
}

/// Tones of a stacked extension.
pub open spec fn extension_bits(e: Option<Extension>) -> u64 {
    match e {
        Some(Extension::Ninth) => tone_bit(9, 14),
        Some(Extension::Eleventh) => tone_bit(9, 14) | tone_bit(11, 17),
        Some(Extension::Thirteenth) => tone_bit(9, 14) | tone_bit(13, 21),
        None => 0,
    }
}

/// Tones of added degrees.
pub open spec fn add_bits_tones(spec: ChordSpec) -> u64 {
    (if bit16(spec.add_bits, 0) {
        tone_bit(9, 14)
    } else {
        0
    }) | (if bit16(spec.add_bits, 1) {
        tone_bit(11, 17)
    } else {
        0
    }) | (if bit16(spec.add_bits, 2) {
        tone_bit(13, 21)
    } else {
        0
    })
}

/// The altered dominant set `1 3 b7 b9 #9 b13`.
pub open spec fn alt_bits() -> u64 {
    tone_bit(1, 0) | tone_bit(3, 4) | tone_bit(7, 10) | tone_bit(9, 13) | tone_bit(9, 15)
        | tone_bit(13, 20)
}

/// Tones the quality, sixth, seventh, extension, and added degrees stack.
pub open spec fn base_tones(spec: ChordSpec) -> u64 {
    if spec.alt {
        alt_bits()
    } else {
        tone_bit(1, 0) | quality_bits(spec.quality) | (if spec.sixth {
            tone_bit(6, 9)
        } else {
            0
        }) | seventh_bits(spec.seventh) | extension_bits(spec.extension) | add_bits_tones(spec)
    }
}

/// Natural slot of the degree altered in alteration slot `k`.
pub open spec fn natural_slot_of_alteration(k: int) -> u64 {
    tone_slot(slot_degree(k), natural_of(slot_degree(k))) as u64
}

/// Altered slot of alteration slot `k`.
pub open spec fn altered_slot(k: int) -> u64 {
    tone_slot(slot_degree(k), natural_of(slot_degree(k)) + slot_accidental(k)) as u64
}

/// One alteration step: drop the natural degree and add the altered tone.
pub open spec fn alteration_step(bits: u64, spec: ChordSpec, k: int) -> u64 {
    if bit16(spec.alteration_bits, k as u16) {
        (bits & !(1u64 << natural_slot_of_alteration(k))) | (1u64 << altered_slot(k))
    } else {
        bits
    }
}

/// Applies alteration slots `k..16` in order.
pub open spec fn apply_alterations(bits: u64, spec: ChordSpec, k: int) -> u64
    decreases 16 - k,
{
    if k >= 16 {
        bits
    } else {
        apply_alterations(alteration_step(bits, spec, k), spec, k + 1)
    }
}

/// Tones of the spec before omissions.
pub open spec fn tones_without_omissions(spec: ChordSpec) -> u64 {
    apply_alterations(base_tones(spec), spec, 0)
}

/// Mask of every tone of the degree at position `p`.
pub open spec fn degree_mask(p: int) -> u64 {
    (31u64 << ((p * 5) as u64))
}

/// Mask of every omitted degree.
pub open spec fn omission_mask(spec: ChordSpec) -> u64 {
    (if bit16(spec.omission_bits, 0) {
        degree_mask(0)
    } else {
        0
    }) | (if bit16(spec.omission_bits, 1) {
        degree_mask(2)
    } else {
        0
    }) | (if bit16(spec.omission_bits, 2) {
        degree_mask(4)
    } else {
        0
    })
}

/// The tones of a spec: stacked, altered, then omitted.
pub open spec fn spec_tones(spec: ChordSpec) -> u64 {
    tones_without_omissions(spec) & !omission_mask(spec)
}

/// Set tone slots `k..50` in increasing order.
pub open spec fn slots_from(bits: u64, k: int) -> Seq<int>
    decreases 50 - k,
{
    if k >= 50 {
        seq![]
    } else if bit64(bits, k as u64) {
        seq![k] + slots_from(bits, k + 1)
    } else {
        slots_from(bits, k + 1)
    }
}

fn tone_bit_exec(degree: u8, semitones: i16) -> (b: u64)
    requires
        degree_position(degree as int) >= 0,
        -2 <= semitones - natural_of(degree as int) <= 2,
    ensures
        b == tone_bit(degree as int, semitones as int),
{
    let slot = degree_pos(degree) * 5 + ((semitones - natural_semitones(degree) + 2) as u64);
    1u64 << slot
}

/// The stacked tones of a spec, as tone-slot bits.
pub fn base_raw_tones(spec: &ChordSpec) -> (b: u64)
    ensures
        b == base_tones(*spec),
{
    if spec.alt {
        return tone_bit_exec(1, 0) | tone_bit_exec(3, 4) | tone_bit_exec(7, 10) | tone_bit_exec(9, 13)
            | tone_bit_exec(9, 15) | tone_bit_exec(13, 20);
    }
    let q = match spec.quality {
        Quality::Major => tone_bit_exec(3, 4) | tone_bit_exec(5, 7),
        Quality::Minor => tone_bit_exec(3, 3) | tone_bit_exec(5, 7),
        Quality::Diminished => tone_bit_exec(3, 3) | tone_bit_exec(5, 6),
        Quality::Augmented => tone_bit_exec(3, 4) | tone_bit_exec(5, 8),
        Quality::Sus2 => tone_bit_exec(2, 2) | tone_bit_exec(5, 7),
        Quality::Sus4 => tone_bit_exec(4, 5) | tone_bit_exec(5, 7),
        Quality::Power => tone_bit_exec(5, 7),
    };
    let six = if spec.sixth {
        tone_bit_exec(6, 9)
    } else {
        0
    };
    let sev = match spec.seventh {
        Seventh::Absent => 0,
        Seventh::Minor => tone_bit_exec(7, 10),
        Seventh::Major => tone_bit_exec(7, 11),
        Seventh::Diminished => tone_bit_exec(7, 9),
    };
    let ext = match spec.extension {
        Some(Extension::Ninth) => tone_bit_exec(9, 14),
        Some(Extension::Eleventh) => tone_bit_exec(9, 14) | tone_bit_exec(11, 17),
        Some(Extension::Thirteenth) => tone_bit_exec(9, 14) | tone_bit_exec(13, 21),
        None => 0,
    };
    let adds = (if test_bit16(spec.add_bits, 0) {
        tone_bit_exec(9, 14)
    } else {
        0
    }) | (if test_bit16(spec.add_bits, 1) {
        tone_bit_exec(11, 17)
    } else {
        0
    }) | (if test_bit16(spec.add_bits, 2) {
        tone_bit_exec(13, 21)
    } else {
        0
    });
    tone_bit_exec(1, 0) | q | six | sev | ext | adds
}

/// Tones of the spec before omissions, as tone-slot bits.
pub fn raw_tones_without_omissions(spec: &ChordSpec) -> (b: u64)
    ensures
        b == tones_without_omissions(*spec),
{
    let mut bits = base_raw_tones(spec);
    let ghost init = bits;
    let mut k: u16 = 0;
    while k < 16
        invariant
            0 <= k <= 16,
            apply_alterations(bits, *spec, k as int) == apply_alterations(init, *spec, 0),
            init == base_tones(*spec),
        decreases 16 - k,
    {
        if test_bit16(spec.alteration_bits, k) {
            let a = slot_alteration(k);
            let natural = natural_semitones(a.degree);
            let nat_bit = tone_bit_exec(a.degree, natural);
            let alt_bit = tone_bit_exec(a.degree, natural + a.accidental as i16);
            bits = (bits & !nat_bit) | alt_bit;
        }
        k += 1;
    }
    bits
}

/// The tones of a spec, as tone-slot bits.
pub fn raw_tones_from_spec(spec: &ChordSpec) -> (b: u64)
    ensures
        b == spec_tones(*spec),
{
    let bits = raw_tones_without_omissions(spec);
    let mask = (if test_bit16(spec.omission_bits, 0) {
        31u64 << 0u64
    } else {
        0
    }) | (if test_bit16(spec.omission_bits, 1) {
        31u64 << 10u64
    } else {
        0
    }) | (if test_bit16(spec.omission_bits, 2) {
        31u64 << 20u64
    } else {
        0
    });
    bits & !mask
}

/// An interval, written like `b3`, `#9`, or `bb7`.
#[derive(Copy, Clone, Debug, Default, Eq, PartialEq, Structural, Hash)]
pub struct IntervalName {
    pub degree: u8,
    pub semitones: i16,
}

/// Text of an interval: accidentals against the natural degree, then the degree.
pub open spec fn interval_text(i: IntervalName) -> Seq<char> {
    crate::notes::accidental_chars(i.semitones - natural_of(i.degree as int)) + crate::text::decimal(
        i.degree as nat,
    )
}

impl IntervalName {
    /// Whether this is the perfect fifth.
    pub fn is_natural_fifth(self) -> (b: bool)
        ensures
            b == (self.degree == 5 && self.semitones == 7),
    {
        self.degree == 5 && self.semitones == 7
    }

    /// Appends the interval text to `out`.
    pub fn push_text(self, out: &mut Vec<char>)
        requires
            degree_position(self.degree as int) >= 0,
            -100 <= self.semitones <= 100,
        ensures
            final(out)@ == old(out)@ + interval_text(self),
    {
        let delta = self.semitones - natural_semitones(self.degree);
        let ch = if delta < 0 { 'b' } else { '#' };
        let count: i16 = if delta < 0 { -delta } else { delta };
        let ghost start = out@;
        let mut i: i16 = 0;
        while i < count
            invariant
                0 <= i <= count,
                count == if delta < 0 { -(delta as int) } else { delta as int },
                ch == if delta < 0 { 'b' } else { '#' },
                out@ == start + Seq::new(i as nat, |k: int| ch),
            decreases count - i,
        {
            out.push(ch);
            i += 1;
            assert(out@ =~= start + Seq::new(i as nat, |k: int| ch));
        }
        assert(Seq::new(count as nat, |k: int| ch) =~= crate::notes::accidental_chars(delta as int));
        push_decimal(out, self.degree as u32);
    }

    /// The interval text, such as `b7`.
    pub fn to_string(&self) -> (s: String)
        requires
            degree_position(self.degree as int) >= 0,
            -100 <= self.semitones <= 100,
        ensures
            s@ == interval_text(*self),
    {
        let mut out: Vec<char> = Vec::new();
        self.push_text(&mut out);
        chars_to_string(&out)
    }
}

/// A tone of a chord formula.
#[derive(Copy, Clone, Debug, Default, Eq, PartialEq, Structural, Hash)]
pub struct ChordTone {
    pub degree: u8,
    pub interval: IntervalName,
    pub semitones: i16,
    pub note: NoteName,
    pub pitch_class: u8,
}

/// The tone of slot `k` above `root`.
pub open spec fn formula_tone(root: NoteName, k: int) -> ChordTone {
    let degree = tone_degree(k);
    let semitones = tone_semitones(k);
    let pitch = pitch_mod(note_pitch(root) + semitones);
    let letter = letter_at(letter_index(root.letter) + letter_steps(degree));
    ChordTone {
        degree: degree as u8,
        interval: IntervalName { degree: degree as u8, semitones: semitones as i16 },
        semitones: semitones as i16,
        note: NoteName { letter, accidental: spelled_accidental(letter, pitch) as i8 },
        pitch_class: pitch as u8,
    }
}

/// The spelled tones of a chord, in degree order.
#[derive(Clone, Debug, Eq, PartialEq)]
pub struct ChordFormula {
    pub tones: Vec<ChordTone>,
}

impl ChordFormula {
    /// Tones have known degrees, pitch classes below 12, and bounded values.
    pub open spec fn wf(&self) -> bool {
        &&& self.tones@.len() <= 50
        &&& forall|i: int| 0 <= i < self.tones@.len() ==> tone_wf(#[trigger] self.tones@[i])
    }

    /// The formula is the tones of `spec` above `root`, in slot order.
    pub open spec fn built_from(&self, root: NoteName, spec: ChordSpec) -> bool {
        self.tones@ == slots_from(spec_tones(spec), 0).map_values(|k: int| formula_tone(root, k))
    }

    /// The tones.
    pub fn tones(&self) -> (t: &Vec<ChordTone>)
        ensures
            t@ == self.tones@,
    {
        &self.tones
    }

    /// The tones of `spec` above `root`.
    pub fn from_parts(root: NoteName, spec: &ChordSpec) -> (f: Self)
        requires
            -2 <= root.accidental <= 2,
        ensures
            f.wf(),
            f.built_from(root, *spec),
    {
        let bits = raw_tones_from_spec(spec);
        Self::from_tone_bits(root, bits)
    }

    /// The tones whose slots are set in `bits`, above `root`.
    pub fn from_tone_bits(root: NoteName, bits: u64) -> (f: Self)
        requires
            -2 <= root.accidental <= 2,
        ensures
            f.wf(),
            f.tones@ == slots_from(bits, 0).map_values(|k: int| formula_tone(root, k)),
    {
        let ghost full = slots_from(bits, 0).map_values(|k: int| formula_tone(root, k));
        let mut tones: Vec<ChordTone> = Vec::new();
        let root_pitch = root.pitch_class();
        let mut k: u64 = 0;
        while k < 50
            invariant
                0 <= k <= 50,
                -2 <= root.accidental <= 2,
                root_pitch.spec_value() == note_pitch(root),
                tones@ + slots_from(bits, k as int).map_values(|j: int| formula_tone(root, j)) == full,
                full == slots_from(bits, 0).map_values(|k: int| formula_tone(root, k)),
                tones@.len() <= k,
                forall|i: int| 0 <= i < tones@.len() ==> tone_wf(#[trigger] tones@[i]),
            decreases 50 - k,
        {
            if test_bit64(bits, k) {
                let tone = tone_for_slot(root, root_pitch, k);
                tones.push(tone);
                proof {
                    let rest = slots_from(bits, k + 1).map_values(|j: int| formula_tone(root, j));
                    assert(slots_from(bits, k as int) == seq![k as int] + slots_from(bits, k + 1));
                    assert(slots_from(bits, k as int).map_values(|j: int| formula_tone(root, j))
                        =~= seq![formula_tone(root, k as int)] + rest);
                    assert(tones@ + rest =~= full);
                }
            } else {
                assert(slots_from(bits, k as int) == slots_from(bits, k + 1));
            }
            k += 1;
        }
        ChordFormula { tones }
    }

    /// The pitch classes of the tones.
    pub fn pitch_set(&self) -> (s: PitchSet)
        requires
            self.wf(),
        ensures
            s.wf(),
            forall|p: int| s.has(p) <==> exists|i: int| 0 <= i < self.tones@.len() && #[trigger] self.tones@[i].pitch_class == p,
    {
        let mut set = PitchSet::empty();
        let mut i: usize = 0;
        while i < self.tones.len()
            invariant
                0 <= i <= self.tones@.len(),
                self.wf(),
                set.wf(),
                forall|p: int| set.has(p) <==> exists|j: int| 0 <= j < i && #[trigger] self.tones@[j].pitch_class == p,
            decreases self.tones@.len() - i,
        {
            let pc = PitchClass::from_value(self.tones[i].pitch_class);
            set.insert(pc);
            proof {
                assert forall|p: int| set.has(p) <==> exists|j: int| 0 <= j < i + 1 && #[trigger] self.tones@[j].pitch_class == p by {
                    if p == self.tones@[i as int].pitch_class {
                        assert(self.tones@[i as int].pitch_class == p);
                    }
                }
            }
            i += 1;
        }
        set
    }

    /// Whether two tones share a pitch class.
    pub fn has_duplicate_pitch_classes(&self) -> (b: bool)
        requires
            self.wf(),
        ensures
            b == exists|i: int, j: int|
                0 <= i < j < self.tones@.len() && #[trigger] self.tones@[i].pitch_class
                    == #[trigger] self.tones@[j].pitch_class,
    {
        let mut seen = PitchSet::empty();
        let mut k: usize = 0;
        while k < self.tones.len()
            invariant
                0 <= k <= self.tones@.len(),
                self.wf(),
                seen.wf(),
                forall|p: int| seen.has(p) <==> exists|j: int| 0 <= j < k && #[trigger] self.tones@[j].pitch_class == p,
                forall|i: int, j: int| 0 <= i < j < k ==> #[trigger] self.tones@[i].pitch_class
                    != #[trigger] self.tones@[j].pitch_class,
            decreases self.tones@.len() - k,
        {
            let pc = PitchClass::from_value(self.tones[k].pitch_class);
            if seen.contains(pc) {
                proof {
                    let p = self.tones@[k as int].pitch_class as int;
                    assert(seen.has(p));
                    let j = choose|j: int| 0 <= j < k && #[trigger] self.tones@[j].pitch_class == p;
                    assert(self.tones@[j].pitch_class == self.tones@[k as int].pitch_class);
                }
                return true;
            }
            proof {
                assert forall|i: int, j: int| 0 <= i < j < k + 1 implies #[trigger] self.tones@[i].pitch_class
                    != #[trigger] self.tones@[j].pitch_class by {
                    if j == k as int {
                        if self.tones@[i].pitch_class == self.tones@[j].pitch_class {
                            assert(seen.has(self.tones@[i].pitch_class as int));
                        }
                    }
                }
            }
            seen.insert(pc);
            proof {
                assert forall|p: int| seen.has(p) <==> exists|j: int| 0 <= j < k + 1 && #[trigger] self.tones@[j].pitch_class == p by {
                    if p == self.tones@[k as int].pitch_class {
                        assert(self.tones@[k as int].pitch_class == p);
                    }
                }
            }
            k += 1;
        }
        false
    }

    /// Whether some tone needs more than two sharps or flats.
    pub fn has_spelling_outside_double_accidentals(&self) -> (b: bool)
        ensures
            b == exists|i: int| 0 <= i < self.tones@.len() && !(-2 <= #[trigger] self.tones@[i].note.accidental <= 2),
    {
        let mut i: usize = 0;
        while i < self.tones.len()
            invariant
                0 <= i <= self.tones@.len(),
                forall|j: int| 0 <= j < i ==> -2 <= #[trigger] self.tones@[j].note.accidental <= 2,
            decreases self.tones@.len() - i,
        {
            let a = self.tones[i].note.accidental;
            if a > 2 || a < -2 {
                return true;
            }
            i += 1;
        }
        false
    }

    /// Index of the first tone with pitch class `pitch`.
    pub fn tone_index_for_pitch(&self, pitch: PitchClass) -> (r: Option<usize>)
        ensures
            r matches Some(i) ==> i < self.tones@.len() && self.tones@[i as int].pitch_class
                == pitch.spec_value() && forall|j: int| 0 <= j < i ==> #[trigger] self.tones@[j].pitch_class
                != pitch.spec_value(),
            r is None ==> forall|j: int| 0 <= j < self.tones@.len() ==> #[trigger] self.tones@[j].pitch_class
                != pitch.spec_value(),
    {
        let v = pitch.value();
        let mut i: usize = 0;
        while i < self.tones.len()
            invariant
                0 <= i <= self.tones@.len(),
                v == pitch.spec_value(),
                forall|j: int| 0 <= j < i ==> #[trigger] self.tones@[j].pitch_class != v,
            decreases self.tones@.len() - i,
        {
            if self.tones[i].pitch_class == v {
                return Some(i);
            }
            i += 1;
        }
        None
    }

    /// The first tone with pitch class `pitch`.
    pub fn tone_for_pitch(&self, pitch: PitchClass) -> (r: Option<ChordTone>)
        ensures
            r matches Some(t) ==> exists|i: int| 0 <= i < self.tones@.len() && self.tones@[i] == t
                && t.pitch_class == pitch.spec_value() && forall|j: int| 0 <= j < i
                ==> #[trigger] self.tones@[j].pitch_class != pitch.spec_value(),
            r is None ==> forall|j: int| 0 <= j < self.tones@.len() ==> #[trigger] self.tones@[j].pitch_class
                != pitch.spec_value(),
    {
        match self.tone_index_for_pitch(pitch) {
            Some(i) => Some(self.tones[i]),
            None => None,
        }
    }

    /// Whether some tone has `degree`.
    pub fn has_degree(&self, degree: u8) -> (b: bool)
        ensures
            b == exists|i: int| 0 <= i < self.tones@.len() && #[trigger] self.tones@[i].degree == degree,
    {
        let mut i: usize = 0;
        while i < self.tones.len()
            invariant
                0 <= i <= self.tones@.len(),
                forall|j: int| 0 <= j < i ==> #[trigger] self.tones@[j].degree != degree,
            decreases self.tones@.len() - i,
        {
            if self.tones[i].degree == degree {
                return true;
            }
            i += 1;
        }
        false
    }

    /// Field-wise equality.
    pub fn same(&self, other: &ChordFormula) -> (b: bool)
        ensures
            b == (self.tones@ == other.tones@),
    {
        if self.tones.len() != other.tones.len() {
            return false;
        }
        let mut i: usize = 0;
        while i < self.tones.len()
            invariant
                0 <= i <= self.tones@.len(),
                self.tones@.len() == other.tones@.len(),
                forall|j: int| 0 <= j < i ==> self.tones@[j] == other.tones@[j],
            decreases self.tones@.len() - i,
        {
            if self.tones[i] != other.tones[i] {
                return false;
            }
            i += 1;
        }
        assert(self.tones@ =~= other.tones@);
        true
    }
}

/// A tone's fields are in range.
pub open spec fn tone_wf(t: ChordTone) -> bool {
    &&& t.pitch_class < 12
    &&& degree_position(t.degree as int) >= 0
    &&& -100 <= t.semitones <= 100
    &&& t.interval.degree == t.degree
    &&& t.interval.semitones == t.semitones
    &&& -6 <= t.note.accidental <= 6
}

fn tone_for_slot(root: NoteName, root_pitch: PitchClass, k: u64) -> (t: ChordTone)
    requires
        k < 50,
        -2 <= root.accidental <= 2,
        root_pitch.spec_value() == note_pitch(root),
    ensures
        t == formula_tone(root, k as int),
        tone_wf(t),
{
    let degree = degree_of_slot(k);
    let semitones = natural_semitones(degree) + ((k % 5) as i16) - 2;
    let pitch = root_pitch.transpose(semitones);
    let letter = root.letter.advance(degree_letter_steps(degree));
    let note = NoteName::spell_for_pitch(letter, pitch);
    ChordTone {
        degree,
        interval: IntervalName { degree, semitones },
        semitones,
        note,
        pitch_class: pitch.value(),
    }
}

/// Whether two formulas for the same spec agree on every interval, whatever
/// their roots: chord formulas are interval-invariant across roots.
pub proof fn lemma_formula_intervals_root_invariant(
    f: ChordFormula,
    g: ChordFormula,
    r1: NoteName,
    r2: NoteName,
    spec: ChordSpec,
)
    requires
        f.built_from(r1, spec),
        g.built_from(r2, spec),
    ensures
        f.tones@.len() == g.tones@.len(),
        forall|i: int| 0 <= i < f.tones@.len() ==> (#[trigger] f.tones@[i]).interval == g.tones@[i].interval
            && f.tones@[i].degree == g.tones@[i].degree && f.tones@[i].semitones == g.tones@[i].semitones,
        forall|i: int| 0 <= i < f.tones@.len() ==> (#[trigger] f.tones@[i]).pitch_class == pitch_mod(
            note_pitch(r1) + f.tones@[i].semitones,
        ),
{
}

/// Parses a chord symbol and returns it with its formula.
pub fn analyze_symbol(input: &str) -> (r: Result<(ChordSymbol, ChordFormula), ChordClawError>)
    ensures
        r is Ok <==> exists|sym: ChordSymbol|
            symbol_text_parts(trimmed(normalized_glyphs(input@)), sym) && #[trigger] symbol_valid(sym),
        r matches Ok((s, f)) ==> symbol_text_parts(trimmed(normalized_glyphs(input@)), s) && symbol_valid(s),
        r matches Ok((s, f)) ==> f.built_from(s.root, s.spec) && f.wf(),
{
    let symbol = ChordSymbol::parse(input)?;
    let formula = symbol.formula();
    Ok((symbol, formula))
}

/// A slash bass that repeats the root is redundant.
pub fn reject_redundant_root_bass(symbol: &ChordSymbol) -> (r: Result<(), ChordClawError>)
    ensures
        r is Ok <==> (symbol.bass matches Some(b) ==> b != symbol.root),
{
    match symbol.bass {
        None => Ok(()),
        Some(bass) => {
            if !bass.same(symbol.root) {
                return Ok(());
            }
            let mut msg: Vec<char> = Vec::new();
            push_str(&mut msg, "invalid slash chord bass '");
            bass.push_text(&mut msg);
            push_str(&mut msg, "': bass repeats root; use '");
            symbol.root.push_text(&mut msg);
            symbol.spec.push_suffix(&mut msg);
            msg.push('\'');
            Err(ChordClawError::from_chars(&msg))
        },
    }
}

/// The first tone of `tones` that sounds at the pitch of `bass`, if there is
/// one, is spelled as `bass`.
pub open spec fn bass_keeps_tone_spelling(tones: Seq<ChordTone>, bass: NoteName) -> bool {
    forall|i: int|
        0 <= i < tones.len() && #[trigger] tones[i].pitch_class == note_pitch(bass) && (forall|j: int|
            0 <= j < i ==> tones[j].pitch_class != note_pitch(bass)) ==> tones[i].note == bass
}

/// A slash bass that is a chord tone must use the chord-tone spelling.
pub fn reject_enharmonic_chord_tone_bass(symbol: &ChordSymbol, formula: &ChordFormula) -> (r:
    Result<(), ChordClawError>)
    ensures
        r is Ok <==> (symbol.bass matches Some(b) ==> bass_keeps_tone_spelling(formula.tones@, b)),
{
    let bass = match symbol.bass {
        None => {
            return Ok(());
        },
        Some(b) => b,
    };
    let tone = match formula.tone_for_pitch(bass.pitch_class()) {
        None => {
            return Ok(());
        },
        Some(t) => t,
    };
    let ghost k = choose|i: int|
        0 <= i < formula.tones@.len() && formula.tones@[i] == tone && tone.pitch_class == note_pitch(
            bass,
        ) && forall|j: int| 0 <= j < i ==> #[trigger] formula.tones@[j].pitch_class != note_pitch(
            bass,
        );
    if tone.note.same(bass) {
        proof {
            assert forall|i: int|
                0 <= i < formula.tones@.len() && #[trigger] formula.tones@[i].pitch_class == note_pitch(
                    bass,
                ) && (forall|j: int| 0 <= j < i ==> formula.tones@[j].pitch_class != note_pitch(bass))
                implies formula.tones@[i].note == bass by {
                if i < k {
                    assert(formula.tones@[i].pitch_class != note_pitch(bass));
                } else if i > k {
                    assert(formula.tones@[k].pitch_class != note_pitch(bass));
                }
            }
        }
        return Ok(());
    }
    assert(formula.tones@[k].pitch_class == note_pitch(bass));
    let mut msg: Vec<char> = Vec::new();
    push_str(&mut msg, "invalid slash chord bass '");
    bass.push_text(&mut msg);
    push_str(&mut msg, "': use chord-tone spelling '");
    tone.note.push_text(&mut msg);
    msg.push('\'');
    Err(ChordClawError::from_chars(&msg))
}

/// Rejects symbols whose parts restate or contradict each other.
pub fn reject_redundant_formula(symbol: &ChordSymbol, formula: &ChordFormula) -> (r: Result<
    (),
    ChordClawError,
>)
    requires
        formula.wf(),
    ensures
        r is Ok <==> formula_sound(symbol.spec, formula.tones@),
{
    let mut reason: Vec<char> = Vec::new();
    let mut head_invalid = false;
    if has_alt_modifiers(&symbol.spec) {
        head_invalid = true;
        push_str(&mut reason, "': alt is already a complete altered dominant set");
    } else if has_omitted_alteration(&symbol.spec) {
        push_str(&mut reason, "': altered degree is also omitted");
    } else if has_redundant_alteration(&symbol.spec) {
        push_str(&mut reason, "': alteration restates an existing interval");
    } else if formula.has_duplicate_pitch_classes() {
        push_str(&mut reason, "': two or more intervals resolve to the same pitch class");
    } else if formula.has_spelling_outside_double_accidentals() {
        head_invalid = true;
        push_str(
            &mut reason,
            "': formula spelling requires accidentals beyond double sharps or flats",
        );
    } else {
        return Ok(());
    }
    let mut msg: Vec<char> = Vec::new();
    if head_invalid {
        push_str(&mut msg, "invalid chord symbol '");
    } else {
        push_str(&mut msg, "redundant chord symbol '");
    }
    symbol.push_name(&mut msg);
    let mut i: usize = 0;
    while i < reason.len()
        decreases reason@.len() - i,
    {
        msg.push(reason[i]);
        i += 1;
    }
    Err(ChordClawError::from_chars(&msg))
}

/// A spec and its tones name a usable chord: `alt` stands alone, no altered
/// degree is omitted or restated, no two tones share a pitch class, and
/// every tone is spelled with at most two accidentals.
pub open spec fn formula_sound(spec: ChordSpec, tones: Seq<ChordTone>) -> bool {
    &&& !alt_with_modifiers(spec)
    &&& !omitted_alteration(spec)
    &&& !redundant_alteration(spec)
    &&& !(exists|i: int, j: int|
        0 <= i < j < tones.len() && #[trigger] tones[i].pitch_class == #[trigger] tones[j].pitch_class)
    &&& !(exists|i: int| 0 <= i < tones.len() && !(-2 <= #[trigger] tones[i].note.accidental <= 2))
}

/// `alt` combined with anything else.
pub open spec fn alt_with_modifiers(spec: ChordSpec) -> bool {
    spec.alt && (spec.extension is Some || spec.sixth || spec.add_bits != 0
        || spec.alteration_bits != 0 || spec.omission_bits != 0)
}

/// Whether `alt` is combined with anything else.
pub fn has_alt_modifiers(spec: &ChordSpec) -> (b: bool)
    ensures
        b == alt_with_modifiers(*spec),
{
    spec.alt && (spec.extension.is_some() || spec.sixth || spec.add_bits != 0
        || spec.alteration_bits != 0 || spec.omission_bits != 0)
}

/// Some altered degree is also omitted.
pub open spec fn omitted_alteration(spec: ChordSpec) -> bool {
    exists|k: int| 0 <= k < 16 && #[trigger] bit16(spec.alteration_bits, k as u16) && spec.has_omission(
        slot_degree(k),
    )
}

/// Whether some altered degree is also omitted.
pub fn has_omitted_alteration(spec: &ChordSpec) -> (b: bool)
    ensures
        b == omitted_alteration(*spec),
{
    let mut k: u16 = 0;
    while k < 16
        invariant
            0 <= k <= 16,
            forall|j: int| 0 <= j < k ==> !(#[trigger] bit16(spec.alteration_bits, j as u16)
                && spec.has_omission(slot_degree(j))),
        decreases 16 - k,
    {
        if test_bit16(spec.alteration_bits, k) {
            let a = slot_alteration(k);
            if spec.contains_omission(a.degree) {
                assert(bit16(spec.alteration_bits, (k as int) as u16));
                return true;
            }
        }
        k += 1;
    }
    false
}

/// Some alteration names a tone the spec already stacks.
pub open spec fn redundant_alteration(spec: ChordSpec) -> bool {
    exists|k: int| 0 <= k < 16 && #[trigger] bit16(spec.alteration_bits, k as u16) && bit64(
        base_tones(spec),
        altered_slot(k),
    )
}

/// Whether some alteration names a tone the spec already stacks.
pub fn has_redundant_alteration(spec: &ChordSpec) -> (b: bool)
    ensures
        b == redundant_alteration(*spec),
{
    let base = base_raw_tones(spec);
    let mut k: u16 = 0;
    while k < 16
        invariant
            0 <= k <= 16,
            base == base_tones(*spec),
            forall|j: int| 0 <= j < k ==> !(#[trigger] bit16(spec.alteration_bits, j as u16)
                && bit64(base, altered_slot(j))),
        decreases 16 - k,
    {
        if test_bit16(spec.alteration_bits, k) {
            let a = slot_alteration(k);
            let natural = natural_semitones(a.degree);
            let slot = degree_pos(a.degree) * 5 + ((a.accidental as i16 + 2) as u64);
            assert(slot == altered_slot(k as int));
            if test_bit64(base, slot) {
                assert(bit16(spec.alteration_bits, (k as int) as u16));
                return true;
            }
        }
        k += 1;
    }
    false
}

} // verus!
