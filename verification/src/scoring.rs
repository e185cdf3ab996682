use vstd::prelude::*;

use crate::formula::{tone_wf, ChordFormula, ChordTone};
use crate::identify::{compare_keys, lex_le, lex_lt, lemma_lex_le_transitive, prefix_eq, InferredOmission};
use crate::notes::{fret_ok, pitch_mod, Instrument, PitchClass, Tuning};
use crate::voicing::{
    fret_pitch, fret_profile, frets_ok, profile_wf, sounding_count, stopped_frets, BassRule, FretProfile,
    VoicingCandidate, VoicingMode,
    VoicingOptions,
};
use crate::MAX_DIVERSITY_SCORE_WINDOW;

verus! {

/// Every term of a voicing's score: costs are added, bonuses taken off.
#[derive(Copy, Clone, Debug, Eq, PartialEq)]
pub struct VoicingScoreBreakdown {
    pub total: u32,
    pub position_cost: u32,
    pub relative_fret_cost: u32,
    pub fret_span_cost: u32,
    pub active_string_cost: u32,
    pub internal_mute_cost: u32,
    pub adjacent_fret_jump_cost: u32,
    pub duplicate_pitch_cost: u32,
    pub high_open_mix_cost: u32,
    pub low_open_gap_cost: u32,
    pub preferred_bass_mismatch_cost: u32,
    pub harmonic_defect_cost: u32,
    pub internal_mute_quality_cost: u32,
    pub trailing_mute_cost: u32,
    pub sparse_duplicate_pitch_cost: u32,
    pub open_chord_tone_bypass_cost: u32,
    pub low_added_ninth_cluster_cost: u32,
    pub fingering_complexity_cost: u32,
    pub instrument_cost: u32,
    pub open_position_bonus: u32,
    pub open_root_bass_bonus: u32,
    pub open_bass_grip_bonus: u32,
    pub closed_shape_bonus: u32,
    pub barre_grip_bonus: u32,
    pub compact_low_grip_bonus: u32,
    pub jazz_shell_bonus: u32,
    pub instrument_bonus: u32,
}

/// The total of a breakdown: the first costs, less each grip bonus in turn
/// (never below zero), plus the remaining costs, less the instrument bonus.
pub open spec fn breakdown_total(b: VoicingScoreBreakdown) -> int {
    let base = b.position_cost + b.relative_fret_cost + b.fret_span_cost + b.active_string_cost
        + b.internal_mute_cost + b.adjacent_fret_jump_cost + b.duplicate_pitch_cost
        + b.high_open_mix_cost + b.low_open_gap_cost + b.preferred_bass_mismatch_cost;
    let s1 = sat_sub(base, b.open_position_bonus as int);
    let s2 = sat_sub(s1, b.open_root_bass_bonus as int);
    let s3 = sat_sub(s2, b.open_bass_grip_bonus as int);
    let s4 = sat_sub(s3, b.closed_shape_bonus as int);
    let s5 = sat_sub(s4, b.barre_grip_bonus as int);
    let s6 = sat_sub(s5, b.compact_low_grip_bonus as int);
    let s7 = sat_sub(s6, b.jazz_shell_bonus as int);
    let with_costs = s7 + b.harmonic_defect_cost + b.internal_mute_quality_cost
        + b.trailing_mute_cost + b.sparse_duplicate_pitch_cost + b.open_chord_tone_bypass_cost
        + b.low_added_ninth_cluster_cost + b.fingering_complexity_cost + b.instrument_cost;
    sat_sub(with_costs, b.instrument_bonus as int)
}

/// The costs added after the grip bonuses.
pub open spec fn post_bonus_costs(b: VoicingScoreBreakdown) -> int {
    b.harmonic_defect_cost + b.internal_mute_quality_cost + b.trailing_mute_cost
        + b.sparse_duplicate_pitch_cost + b.open_chord_tone_bypass_cost
        + b.low_added_ninth_cluster_cost + b.fingering_complexity_cost + b.instrument_cost
}

/// Grip bonuses cannot erase the costs counted after them: whatever the
/// bonuses, the total keeps those costs, less only the instrument bonus.
pub proof fn law_post_bonus_costs_kept(b: VoicingScoreBreakdown)
    ensures
        breakdown_total(b) >= post_bonus_costs(b) - b.instrument_bonus,
        breakdown_total(b) >= 0,
{
}

/// Subtraction that stops at zero.
pub open spec fn sat_sub(a: int, b: int) -> int {
    if a > b {
        a - b
    } else {
        0
    }
}

/// Whether a degree counts as upper structure: 6, 7, 9, 11, 13.
pub open spec fn upper_degree(d: int) -> bool {
    d == 6 || d == 7 || d == 9 || d == 11 || d == 13
}

/// The span of the stopped frets, if any.
pub open spec fn span_of(p: FretProfile) -> Option<int> {
    match (p.min_non_open, p.max_non_open) {
        (Some(a), Some(b)) => Some(b - a),
        _ => None,
    }
}

/// Some tone of `tones` is upper structure.
pub open spec fn upper_tones(tones: Seq<ChordTone>) -> bool {
    exists|i: int| 0 <= i < tones.len() && upper_degree(#[trigger] tones[i].degree as int)
}

/// Cost of the stopped frets above the lowest one: their excess over it.
pub open spec fn relative_fret_cost_of(p: FretProfile) -> int {
    match p.min_non_open {
        Some(m) => p.non_open_sum - m * p.non_open_count,
        None => 0,
    }
}

/// Cost of the stretch: the square of the span.
pub open spec fn fret_span_cost_of(p: FretProfile) -> int {
    match span_of(p) {
        Some(v) => v * v,
        None => 0,
    }
}

/// Cost of inner mutes: 4 each in a compact closed grip of four or more
/// strings with one inner mute, else 10 each.
pub open spec fn internal_mute_cost_of(p: FretProfile) -> int {
    let count = p.internal_mutes as int;
    if count == 0 {
        0
    } else if !p.has_open && p.active_count >= 4 && (span_of(p) matches Some(v) && v <= 4) && count <= 1 {
        count * 4
    } else {
        count * 10
    }
}

/// Cost of inner mutes by how the grip holds them.
pub open spec fn internal_mute_quality_cost_of(p: FretProfile, upper: bool, instrument: Instrument) -> int {
    let count = p.internal_mutes as int;
    if count == 0 {
        0
    } else if upper && !p.has_open && p.active_count <= 4 && (span_of(p) matches Some(v) && v <= 4) {
        0
    } else if !upper && p.active_count >= 5 {
        count * 36
    } else if p.has_open {
        if instrument == Instrument::Ukulele {
            count * 12
        } else {
            count * 24
        }
    } else {
        count * 20
    }
}

/// Cost of muted strings above the last sounding one.
pub open spec fn trailing_mute_cost_of(p: FretProfile, upper: bool) -> int {
    let unit: int = if upper && p.active_count <= 4 {
        2
    } else if p.active_count >= 5 {
        8
    } else {
        10
    };
    p.trailing_mutes * unit
}

/// Ukulele cost of grips high on the neck.
pub open spec fn ukulele_high_position_cost_of(p: FretProfile) -> int {
    match (p.min_non_open, p.max_non_open) {
        (Some(min), Some(max)) => if min >= 7 {
            36 + (min - 6) * (min - 6) * 3
        } else if max >= 7 && min <= 4 {
            if p.has_open {
                24 + (max - 6) * 4
            } else {
                18 + (max - 6) * 4
            }
        } else {
            0
        },
        _ => 0,
    }
}

/// Guitar bonus for a full open-position grip.
pub open spec fn guitar_open_position_bonus_of(p: FretProfile, n: int) -> int {
    if n != 6 || !p.has_open || p.active_count < 4 {
        0
    } else {
        match p.max_non_open {
            Some(max) => if max <= 3 && p.trailing_mutes == 0 {
                8
            } else {
                0
            },
            None => 0,
        }
    }
}

/// Fewest strings a grip needs to count as full.
pub open spec fn min_active_of(n: int) -> int {
    if n >= 6 {
        4
    } else if n > 0 {
        n - 1
    } else {
        0
    }
}

/// Bonus for a full grip in open position.
pub open spec fn open_position_bonus_of(p: FretProfile, n: int) -> int {
    let max_fret = match p.max_non_open {
        Some(m) => m as int,
        None => 0,
    };
    if p.has_open && max_fret <= 3 && p.active_count >= min_active_of(n) {
        if p.active_count == n {
            22
        } else if p.active_count + 1 == n {
            10
        } else {
            4
        }
    } else {
        0
    }
}

/// Number of entries of `s` equal to `v`.
pub open spec fn count_equal(s: Seq<u8>, v: u8) -> nat
    decreases s.len(),
{
    if s.len() == 0 {
        0
    } else {
        count_equal(s.drop_last(), v) + if s.last() == v {
            1nat
        } else {
            0nat
        }
    }
}

/// Number of stopped frets equal to the lowest one.
pub open spec fn min_fret_count_of(p: FretProfile) -> int {
    match p.min_non_open {
        Some(m) => count_equal(p.non_open@.take(p.non_open_count as int), m) as int,
        None => 0,
    }
}

/// Bonus for a closed grip whose lowest fret is held by two or more strings.
pub open spec fn closed_shape_bonus_of(p: FretProfile, n: int) -> int {
    if p.has_open || p.active_count < min_active_of(n) || p.internal_mutes > 0 {
        0
    } else {
        match (p.min_non_open, p.max_non_open) {
            (Some(min), Some(max)) => if min_fret_count_of(p) < 2 || max - min > 2 {
                0
            } else {
                let base: int = if min <= 2 {
                    30
                } else if min <= 5 {
                    6
                } else if min <= 8 {
                    12
                } else {
                    8
                };
                if p.active_count == n {
                    base
                } else {
                    base / 2
                }
            },
            _ => 0,
        }
    }
}

/// Bonus for a compact closed grip low on the neck.
pub open spec fn compact_low_grip_bonus_of(p: FretProfile, n: int) -> int {
    if p.has_open || p.active_count + 1 < n {
        0
    } else {
        match span_of(p) {
            Some(span) => {
                let min = match p.min_non_open {
                    Some(m) => m as int,
                    None => 0,
                };
                if min <= 3 && span <= 2 {
                    8
                } else {
                    0
                }
            },
            None => 0,
        }
    }
}

/// Bonus for a closed three- or four-string shell of an extended chord.
pub open spec fn jazz_shell_bonus_of(p: FretProfile, upper: bool) -> int {
    if !upper || p.has_open || !(3 <= p.active_count <= 4) {
        0
    } else {
        match span_of(p) {
            Some(span) => if span > 4 || p.internal_mutes > 1 {
                0
            } else if p.active_count == 4 {
                if p.internal_mutes == 1 {
                    14
                } else {
                    10
                }
            } else {
                6
            },
            None => 0,
        }
    }
}

/// Some tone of `tones` has degree `d`.
pub open spec fn tones_degree(tones: Seq<ChordTone>, d: int) -> bool {
    exists|i: int| 0 <= i < tones.len() && #[trigger] tones[i].degree == d
}

/// Ukulele cost of a muted top string: more when it is the only one left out.
pub open spec fn ukulele_treble_mute_cost_of(frets: Seq<Option<u8>>, active_count: int, n: int) -> int {
    if n != 4 || frets[n - 1] is Some {
        0
    } else if active_count + 1 == n {
        18
    } else {
        8
    }
}

/// Guitar bonus for an added ninth over an open top string.
pub open spec fn guitar_open_treble_extension_bonus_of(
    frets: Seq<Option<u8>>,
    tones: Seq<ChordTone>,
    p: FretProfile,
    n: int,
) -> int {
    if n != 6 || !p.has_open || p.active_count < 5 || frets[n - 1] != Some(0u8) || !tones_degree(tones, 9)
        || tones_degree(tones, 7) {
        0
    } else {
        match (span_of(p), p.max_non_open) {
            (Some(span), Some(max)) => if span <= 4 && max <= 5 {
                24
            } else {
                0
            },
            _ => 0,
        }
    }
}

/// How far a stopped fret lies above the lowest one.
pub open spec fn fret_offset(v: u8, min: u8) -> int {
    if v > min {
        v - min
    } else {
        0
    }
}

/// Ukulele bonus for a full open grip whose stopped frets step across the
/// neck, each a different distance above the lowest.
pub open spec fn ukulele_diagonal_bonus_of(p: FretProfile, n: int) -> int {
    let count = p.non_open_count as int;
    let s = p.non_open@;
    if n != 4 || !p.has_open || p.active_count != n || count < 3 {
        0
    } else {
        match (p.min_non_open, p.max_non_open) {
            (Some(min), Some(max)) => if max > 4 || max - min + 1 != count {
                0
            } else if (forall|j: int| 0 <= j < count ==> fret_offset(#[trigger] s[j], min) < 5) && (forall|
                j: int,
                k: int,
            | 0 <= j < k < count ==> fret_offset(#[trigger] s[j], min) != fret_offset(#[trigger] s[k], min)) {
                12
            } else {
                0
            },
            _ => 0,
        }
    }
}

/// Cost of one omitted tone of a voicing: the root and the fifth matter less
/// with an upper structure; the third always costs most.
pub open spec fn omission_cost_of(o: InferredOmission, upper: bool) -> int {
    match o {
        InferredOmission::Root => if upper {
            45
        } else {
            140
        },
        InferredOmission::Third => 160,
        InferredOmission::Fifth => if upper {
            0
        } else {
            90
        },
    }
}

/// The cost of the first `k` omissions.
pub open spec fn omissions_cost_of(o: Seq<InferredOmission>, k: int, upper: bool) -> int
    decreases k,
{
    if k <= 0 {
        0
    } else {
        omissions_cost_of(o, k - 1, upper) + omission_cost_of(o[k - 1], upper)
    }
}

/// The neck region of a fret: up to 4, 8, 12, or higher.
pub open spec fn position_bucket_of(fret: int) -> int {
    if fret <= 4 {
        0
    } else if fret <= 8 {
        1
    } else if fret <= 12 {
        2
    } else {
        3
    }
}

/// The position family: open position, open-high by bucket, closed by bucket.
pub open spec fn position_family_of(p: FretProfile) -> int {
    let max = match p.max_non_open {
        Some(m) => m as int,
        None => 0,
    };
    let min = match p.min_non_open {
        Some(m) => m as int,
        None => 0,
    };
    if p.has_open && max <= 4 {
        0
    } else if p.has_open {
        1 + position_bucket_of(min)
    } else {
        5 + position_bucket_of(min)
    }
}

/// The whole family: position, string band, density and inner mutes.
pub open spec fn voicing_family_of(p: FretProfile, n: int) -> int {
    let first = match p.first_played {
        Some(f) => f as int,
        None => 0,
    };
    let last = match p.last_played {
        Some(l) => l as int,
        None => 0,
    };
    let band: int = if first == 0 && last + 1 == n {
        0
    } else if n >= 5 && first <= 1 && last + 2 >= n {
        1
    } else if last < n / 2 {
        2
    } else if first >= n / 2 {
        4
    } else {
        3
    };
    let density: int = if p.active_count == n {
        0
    } else if p.active_count + 1 >= n && p.active_count >= 3 {
        1
    } else {
        2
    };
    let mute: int = if p.internal_mutes > 0 {
        1
    } else {
        0
    };
    ((position_family_of(p) * 5 + band) * 3 + density) * 2 + mute
}

/// Tie-break by position.
pub open spec fn position_tie_break_of(p: FretProfile, n: int) -> int {
    let max = match p.max_non_open {
        Some(m) => m as int,
        None => 0,
    };
    let min = match p.min_non_open {
        Some(m) => m as int,
        None => 0,
    };
    if p.has_open && max <= 3 && p.active_count + 1 >= n {
        0
    } else if p.has_open && max <= 5 {
        1
    } else if !p.has_open && min <= 5 && p.active_count == n {
        2
    } else {
        3
    }
}

/// The character codes of one string in the compact text.
pub open spec fn fret_codes(f: Option<u8>) -> Seq<i64> {
    match f {
        Some(v) => if v >= 10 {
            seq![(48 + v / 10) as i64, (48 + v % 10) as i64]
        } else {
            seq![(48 + v) as i64]
        },
        None => seq![120i64],
    }
}

/// The codes of the compact text of the first `k` strings, `-` (45) between
/// strings when `dashed`.
pub open spec fn compact_codes(frets: Seq<Option<u8>>, k: int, dashed: bool) -> Seq<i64>
    decreases k,
{
    if k <= 0 {
        seq![]
    } else {
        compact_codes(frets, k - 1, dashed) + (if dashed && k - 1 > 0 {
            seq![45i64]
        } else {
            seq![]
        }) + fret_codes(frets[k - 1])
    }
}

/// Some fret needs two digits.
pub open spec fn needs_dashes(frets: Seq<Option<u8>>, n: int) -> bool {
    exists|i: int| 0 <= i < n && (#[trigger] frets[i] matches Some(v) && v > 9)
}

/// Cost of one jump between neighbouring stopped frets: four times the
/// square of what exceeds two frets.
pub open spec fn jump_pair_cost(a: int, b: int) -> int {
    let jump = if b > a {
        b - a
    } else {
        a - b
    };
    if jump > 2 {
        (jump - 2) * (jump - 2) * 4
    } else {
        0
    }
}

/// The jump costs along a run of stopped frets.
pub open spec fn jump_cost_of(s: Seq<u8>) -> int
    decreases s.len(),
{
    if s.len() < 2 {
        0
    } else {
        jump_cost_of(s.drop_last()) + jump_pair_cost(s[s.len() - 2] as int, s.last() as int)
    }
}

/// Number of the first `k` strings that sound pitch class `p`.
pub open spec fn strings_on_pitch(t: Tuning, frets: Seq<Option<u8>>, k: int, p: int) -> nat
    decreases k,
{
    if k <= 0 {
        0
    } else {
        strings_on_pitch(t, frets, k - 1, p) + match frets[k - 1] {
            Some(f) => if fret_pitch(t, k - 1, f as int) == p {
                1nat
            } else {
                0nat
            },
            None => 0nat,
        }
    }
}

/// Cost of the pitch classes below `q` sounded more than twice: eight per
/// extra string.
pub open spec fn duplicate_cost_upto(t: Tuning, frets: Seq<Option<u8>>, n: int, q: int) -> int
    decreases q,
{
    if q <= 0 {
        0
    } else {
        duplicate_cost_upto(t, frets, n, q - 1) + {
            let c = strings_on_pitch(t, frets, n, q - 1);
            if c > 2 {
                (c - 2) * 8
            } else {
                0
            }
        }
    }
}

/// String `i` is the first of the `n` that sounds.
pub open spec fn first_sounding(frets: Seq<Option<u8>>, i: int, n: int) -> bool {
    0 <= i < n && frets[i] is Some && forall|j: int| 0 <= j < i ==> #[trigger] frets[j] is None
}

/// A stopped lowest sounding string, an open string right after it, and a
/// stopped string further up.
pub open spec fn low_open_gap(frets: Seq<Option<u8>>, n: int) -> bool {
    exists|fi: int|
        #[trigger] first_sounding(frets, fi, n) && frets[fi]->0 > 0 && fi + 1 < 8 && frets[fi + 1]
            == Some(0u8) && exists|j: int| fi + 2 <= j < n && (#[trigger] frets[j] matches Some(v) && v > 0)
}

/// String `s` sounds the lowest absolute pitch, and no earlier string sounds
/// as low.
pub open spec fn lowest_first(t: Tuning, frets: Seq<Option<u8>>, n: int, s: int) -> bool {
    &&& 0 <= s < n
    &&& frets[s] is Some
    &&& forall|j: int|
        0 <= j < s && #[trigger] frets[j] is Some ==> t.spec_open_pitch(j) + frets[j]->0 > t.spec_open_pitch(s)
            + frets[s]->0
    &&& forall|j: int|
        s < j < n && #[trigger] frets[j] is Some ==> t.spec_open_pitch(j) + frets[j]->0 >= t.spec_open_pitch(s)
            + frets[s]->0
}

/// Cost of a lowest note other than the preferred bass.
pub open spec fn preferred_bass_mismatch_cost_of(
    t: Tuning,
    frets: Seq<Option<u8>>,
    n: int,
    preferred: Option<PitchClass>,
) -> int {
    match preferred {
        None => 0,
        Some(p) => if exists|s: int|
            #[trigger] lowest_first(t, frets, n, s) && fret_pitch(t, s, frets[s]->0 as int) == p.spec_value() {
            0
        } else {
            100
        },
    }
}

/// Whether some tone of the formula is upper structure.
pub fn has_upper_structure(formula: &ChordFormula) -> (b: bool)
    ensures
        b == upper_tones(formula.tones@),
{
    let mut i: usize = 0;
    while i < formula.tones.len()
        invariant
            0 <= i <= formula.tones@.len(),
            forall|j: int| 0 <= j < i ==> !upper_degree(#[trigger] formula.tones@[j].degree as int),
        decreases formula.tones@.len() - i,
    {
        let d = formula.tones[i].degree;
        if d == 6 || d == 7 || d == 9 || d == 11 || d == 13 {
            return true;
        }
        i += 1;
    }
    false
}

/// Whether some tone of the formula has `degree`.
pub fn formula_has_degree(formula: &ChordFormula, degree: u8) -> (b: bool)
    ensures
        b == tones_degree(formula.tones@, degree as int),
{
    formula.has_degree(degree)
}

/// Cost of the hand's position: the lowest stopped fret, doubled without open strings.
fn position_cost(profile: &FretProfile) -> (c: u32)
    requires
        profile_wf(*profile, 8),
    ensures
        c <= 60,
        c == match profile.min_non_open {
            Some(m) => m * (if profile.has_open { 1int } else { 2 }),
            None => 0,
        },
{
    match profile.min_non_open {
        Some(min) => min as u32 * if profile.has_open {
            1
        } else {
            2
        },
        None => 0,
    }
}

/// Cost of stopped frets above the lowest one.
fn relative_fret_cost(profile: &FretProfile) -> (c: u32)
    requires
        profile_wf(*profile, 8),
    ensures
        c <= 240,
        c == relative_fret_cost_of(*profile),
{
    match profile.min_non_open {
        Some(min) => {
            assert(profile.non_open_sum >= min * profile.non_open_count);
            profile.non_open_sum as u32 - min as u32 * profile.non_open_count as u32
        },
        None => 0,
    }
}

/// Cost of the stretch: the square of the span.
fn fret_span_cost(profile: &FretProfile) -> (c: u32)
    requires
        profile_wf(*profile, 8),
    ensures
        c <= 841,
        c == fret_span_cost_of(*profile),
{
    match profile.fret_span() {
        Some(span) => {
            assert(span * span <= 841) by (nonlinear_arith)
                requires
                    span <= 29,
            ;
            span as u32 * span as u32
        },
        None => 0,
    }
}

/// Cost of leaving strings unplayed: none for all strings, little for one
/// left out, more the fewer sound.
pub open spec fn active_string_cost_of(active_count: int, string_count: int) -> int {
    if active_count == string_count {
        0
    } else if active_count + 1 == string_count {
        2
    } else if active_count == 0 {
        120
    } else if active_count == 1 {
        90
    } else if active_count == 2 {
        45
    } else if active_count == 3 {
        16
    } else {
        5
    }
}

/// Cost of leaving strings unplayed.
pub fn active_string_cost(active_count: usize, string_count: usize) -> (c: u32)
    requires
        active_count <= 16,
    ensures
        c <= 120,
        c == active_string_cost_of(active_count as int, string_count as int),
{
    if active_count == string_count {
        return 0;
    }
    if active_count + 1 == string_count {
        return 2;
    }
    if active_count == 0 {
        120
    } else if active_count == 1 {
        90
    } else if active_count == 2 {
        45
    } else if active_count == 3 {
        16
    } else {
        5
    }
}

/// Cost of muted strings between sounding ones.
fn internal_mute_cost(profile: &FretProfile) -> (c: u32)
    requires
        profile_wf(*profile, 8),
    ensures
        c <= 80,
        c == internal_mute_cost_of(*profile),
{
    let count = profile.internal_mutes;
    if count == 0 {
        return 0;
    }
    let compact_closed = !profile.has_open && profile.active_count >= 4 && match profile.fret_span() {
        Some(span) => span <= 4,
        None => false,
    } && count <= 1;
    if compact_closed {
        count * 4
    } else {
        count * 10
    }
}

/// Cost of big jumps between neighbouring stopped frets.
fn adjacent_fret_jump_cost(frets: &[Option<u8>; 8], n: usize) -> (c: u32)
    requires
        frets_ok(*frets, n as int),
    ensures
        c <= 8 * 3136,
        c == jump_cost_of(stopped_frets(frets@, n as int)),
{
    let mut previous: Option<u8> = None;
    let mut cost: u32 = 0;
    let mut i: usize = 0;
    while i < n
        invariant
            0 <= i <= n <= 8,
            frets_ok(*frets, n as int),
            cost <= i * 3136,
            previous matches Some(p) ==> p <= 30,
            cost == jump_cost_of(stopped_frets(frets@, i as int)),
            previous is Some <==> stopped_frets(frets@, i as int).len() > 0,
            previous matches Some(p) ==> p == stopped_frets(frets@, i as int).last(),
        decreases n - i,
    {
        let ghost run = stopped_frets(frets@, i as int);
        assert(fret_ok(frets@[i as int]));
        if let Some(fret) = frets[i] {
            if fret > 0 {
                if let Some(prev) = previous {
                    let jump = if fret > prev {
                        fret - prev
                    } else {
                        prev - fret
                    };
                    if jump > 2 {
                        let excess = (jump - 2) as u32;
                        assert(excess * excess * 4 <= 3136) by (nonlinear_arith)
                            requires
                                excess <= 28,
                        ;
                        cost += excess * excess * 4;
                    }
                }
                previous = Some(fret);
                proof {
                    assert(stopped_frets(frets@, i + 1) =~= run.push(fret));
                    assert(run.push(fret).drop_last() =~= run);
                }
            } else {
                assert(stopped_frets(frets@, i + 1) =~= run);
            }
        } else {
            assert(stopped_frets(frets@, i + 1) =~= run);
        }
        i += 1;
    }
    cost
}

/// How many strings sound each pitch class.
fn pitch_counts(frets: &[Option<u8>; 8], tuning: &Tuning, n: usize) -> (counts: [u8; 12])
    requires
        frets_ok(*frets, n as int),
        n == tuning.spec_string_count(),
    ensures
        forall|p: int| 0 <= p < 12 ==> #[trigger] counts@[p] <= n,
        forall|p: int| 0 <= p < 12 ==> #[trigger] counts@[p] == strings_on_pitch(*tuning, frets@, n as int, p),
{
    let mut counts = [0u8; 12];
    let mut i: usize = 0;
    while i < n
        invariant
            0 <= i <= n <= 8,
            n == tuning.spec_string_count(),
            frets_ok(*frets, n as int),
            forall|p: int| 0 <= p < 12 ==> #[trigger] counts@[p] <= i,
            forall|p: int| 0 <= p < 12 ==> #[trigger] counts@[p] == strings_on_pitch(*tuning, frets@, i as int, p),
        decreases n - i,
    {
        assert(fret_ok(frets@[i as int]));
        if let Some(fret) = frets[i] {
            let pitch = tuning.pitch_at(i, fret);
            let idx = pitch.value() as usize;
            counts[idx] = counts[idx] + 1;
        }
        i += 1;
    }
    counts
}

/// Cost of a pitch class sounded more than twice.
fn duplicate_pitch_cost(frets: &[Option<u8>; 8], tuning: &Tuning, n: usize) -> (c: u32)
    requires
        frets_ok(*frets, n as int),
        n == tuning.spec_string_count(),
    ensures
        c <= 12 * 64,
        c == duplicate_cost_upto(*tuning, frets@, n as int, 12),
{
    let counts = pitch_counts(frets, tuning, n);
    let mut total: u32 = 0;
    let mut p: usize = 0;
    while p < 12
        invariant
            0 <= p <= 12,
            n <= 8,
            forall|q: int| 0 <= q < 12 ==> #[trigger] counts@[q] <= n,
            forall|q: int| 0 <= q < 12 ==> #[trigger] counts@[q] == strings_on_pitch(*tuning, frets@, n as int, q),
            total <= p * 64,
            total == duplicate_cost_upto(*tuning, frets@, n as int, p as int),
        decreases 12 - p,
    {
        let count = counts[p];
        if count > 2 {
            total += (count - 2) as u32 * 8;
        }
        p += 1;
    }
    total
}

/// String `i` is stopped at a fret above the nut.
pub open spec fn stopped_string(frets: Seq<Option<u8>>, i: int) -> bool {
    frets[i] matches Some(v) && v > 0
}

/// The stopped strings among the first `k` lie next to each other.
pub open spec fn stopped_in_a_row(frets: Seq<Option<u8>>, k: int) -> bool {
    forall|i: int, j: int, m: int|
        0 <= i < m < j < k && #[trigger] stopped_string(frets, i) && #[trigger] stopped_string(frets, j)
            ==> #[trigger] stopped_string(frets, m)
}

/// Among the first `k` strings an open string comes after a stopped one.
pub open spec fn open_above_stopped(frets: Seq<Option<u8>>, n: int, k: int) -> bool {
    exists|i: int, j: int| 0 <= i < j < k && j < n && #[trigger] stopped_string(frets, i) && #[trigger] frets[j] == Some(0u8)
}

/// Whether strings `0..n` hold a compact open treble grip.
#[verifier::opaque]
pub open spec fn compact_open_treble_grip_of(frets: Seq<Option<u8>>, p: FretProfile, n: int) -> bool {
    p.active_count + 1 >= n && p.trailing_mutes == 0 && p.non_open_count > 0 && p.max_non_open->0
        - p.min_non_open->0 <= 4 && p.min_non_open->0 <= 5 && p.max_non_open->0 <= 7 && stopped_in_a_row(
        frets,
        n,
    ) && open_above_stopped(frets, n, n)
}

/// Cost of open strings beside stopped frets above the third.
#[verifier::opaque]
pub open spec fn high_open_mix_cost_of(frets: Seq<Option<u8>>, instrument: Instrument, p: FretProfile, n: int) -> int {
    let max = p.max_non_open->0 as int;
    let min = p.min_non_open->0 as int;
    let count = stopped_frets(frets, n).len();
    if p.non_open_count == 0 || max <= 3 || !p.has_open || (instrument == Instrument::Ukulele && max <= 4)
        || compact_open_treble_grip_of(frets, p, n) {
        0
    } else if !open_above_stopped(frets, n, n) {
        let excess = if max > 5 {
            max - 5
        } else {
            0
        };
        if stopped_in_a_row(frets, n) && count >= 4 {
            excess * 2
        } else if stopped_in_a_row(frets, n) && count >= 3 {
            excess * excess * 2
        } else {
            excess * excess * 4
        }
    } else {
        (max - 3) * (max - 3) * 16 + if min >= 5 {
            24int
        } else {
            0
        }
    }
}

/// An open treble grip: stopped strings in a row below open trebles, close
/// together and low on the neck.
fn compact_open_treble_grip(frets: &[Option<u8>; 8], profile: &FretProfile, n: usize) -> (r: bool)
    requires
        frets_ok(*frets, n as int),
        profile_wf(*profile, n as int),
    ensures
        r == compact_open_treble_grip_of(frets@, *profile, n as int),
{
    proof {
        reveal(compact_open_treble_grip_of);
    }
    if profile.active_count + 1 < n || profile.trailing_mutes > 0 {
        return false;
    }
    let span = match profile.fret_span() {
        Some(s) => s,
        None => {
            return false;
        },
    };
    let min = match profile.min_non_open {
        Some(m) => m,
        None => {
            return false;
        },
    };
    let max = match profile.max_non_open {
        Some(m) => m,
        None => {
            return false;
        },
    };
    if span > 4 || min > 5 || max > 7 {
        return false;
    }
    let mut first_fretted: Option<usize> = None;
    let mut previous_fretted: Option<usize> = None;
    let mut saw_open_after_fretted = false;
    let mut idx: usize = 0;
    while idx < n
        invariant
            0 <= idx <= n <= 8,
            n <= 8,
            profile.active_count + 1 >= n && profile.trailing_mutes == 0 && profile.non_open_count > 0
                && profile.max_non_open->0 - profile.min_non_open->0 <= 4 && profile.min_non_open->0 <= 5
                && profile.max_non_open->0 <= 7,
            previous_fretted matches Some(p) ==> p < idx && stopped_string(frets@, p as int) && forall|k: int|
                p < k < idx ==> !#[trigger] stopped_string(frets@, k),
            previous_fretted is None ==> forall|k: int| 0 <= k < idx ==> !#[trigger] stopped_string(frets@, k),
            first_fretted is Some <==> previous_fretted is Some,
            saw_open_after_fretted == open_above_stopped(frets@, n as int, idx as int),
            stopped_in_a_row(frets@, idx as int),
        decreases n - idx,
    {
        proof {
            reveal(compact_open_treble_grip_of);
        }
        let ghost fs = frets@;
        let ghost i = idx as int;
        match frets[idx] {
            Some(value) => {
                if value == 0 {
                    if first_fretted.is_some() {
                        saw_open_after_fretted = true;
                        proof {
                            let p = previous_fretted->0 as int;
                            assert(stopped_string(fs, p) && fs[i] == Some(0u8));
                        }
                    }
                    proof {
                        assert(!stopped_string(fs, i));
                        if open_above_stopped(fs, n as int, i + 1) && !open_above_stopped(fs, n as int, i) {
                            let (a, b) = choose|a: int, b: int|
                                0 <= a < b < i + 1 && b < n && #[trigger] stopped_string(fs, a) && #[trigger] fs[b]
                                    == Some(0u8);
                            assert(b == i);
                            assert(previous_fretted is Some);
                        }
                        if open_above_stopped(fs, n as int, i) {
                            let (a, b) = choose|a: int, b: int|
                                0 <= a < b < i && b < n && #[trigger] stopped_string(fs, a) && #[trigger] fs[b]
                                    == Some(0u8);
                            assert(open_above_stopped(fs, n as int, i + 1));
                        }
                    }
                } else {
                    assert(stopped_string(fs, i));
                    if saw_open_after_fretted {
                        proof {
                            let (a, b) = choose|a: int, b: int|
                                0 <= a < b < i && b < n && #[trigger] stopped_string(fs, a) && #[trigger] fs[b]
                                    == Some(0u8);
                            assert(!stopped_string(fs, b));
                            assert(!stopped_in_a_row(fs, n as int));
                        }
                        return false;
                    }
                    if first_fretted.is_none() {
                        first_fretted = Some(idx);
                    }
                    if let Some(previous) = previous_fretted {
                        if idx != previous + 1 {
                            proof {
                                assert(!stopped_string(fs, previous + 1));
                                assert(!stopped_in_a_row(fs, n as int));
                            }
                            return false;
                        }
                    }
                    proof {
                        assert(!open_above_stopped(fs, n as int, i + 1)) by {
                            if open_above_stopped(fs, n as int, i + 1) {
                                let (a, b) = choose|a: int, b: int|
                                    0 <= a < b < i + 1 && b < n && #[trigger] stopped_string(fs, a) && #[trigger] fs[b]
                                        == Some(0u8);
                                assert(b < i);
                            }
                        }
                        assert forall|a: int, b: int, m: int|
                            0 <= a < m < b < i + 1 && #[trigger] stopped_string(fs, a) && #[trigger] stopped_string(fs, b)
                                implies #[trigger] stopped_string(fs, m) by {
                            if b == i {
                                assert(previous_fretted is Some);
                            }
                        }
                    }
                    previous_fretted = Some(idx);
                }
            },
            None => {
                proof {
                    assert(!stopped_string(fs, i));
                    if open_above_stopped(fs, n as int, i + 1) {
                        let (a, b) = choose|a: int, b: int|
                            0 <= a < b < i + 1 && b < n && #[trigger] stopped_string(fs, a) && #[trigger] fs[b]
                                == Some(0u8);
                        assert(open_above_stopped(fs, n as int, i));
                    }
                    if open_above_stopped(fs, n as int, i) {
                        let (a, b) = choose|a: int, b: int|
                            0 <= a < b < i && b < n && #[trigger] stopped_string(fs, a) && #[trigger] fs[b]
                                == Some(0u8);
                        assert(open_above_stopped(fs, n as int, i + 1));
                    }
                }
            },
        }
        idx += 1;
    }
    saw_open_after_fretted
}

/// Strings beyond the first on each pitch class `0..q`.
pub open spec fn repeated_strings_upto(t: Tuning, frets: Seq<Option<u8>>, n: int, q: int) -> int
    decreases q,
{
    if q <= 0 {
        0
    } else {
        repeated_strings_upto(t, frets, n, q - 1) + {
            let c = strings_on_pitch(t, frets, n, q - 1);
            if c > 0 {
                c - 1
            } else {
                0
            }
        }
    }
}

/// Cost of repeated pitch classes in a sparse or broken grip: each repeat
/// costs less the fuller the grip, and little over upper structure.
#[verifier::opaque]
pub open spec fn sparse_duplicate_cost_of(
    t: Tuning,
    frets: Seq<Option<u8>>,
    tones: Seq<ChordTone>,
    p: FretProfile,
    n: int,
) -> int {
    let active = p.active_count as int;
    if active >= 5 && p.internal_mutes == 0 {
        0
    } else if active == n && p.has_open && p.internal_mutes == 0 && p.trailing_mutes == 0 {
        0
    } else {
        repeated_strings_upto(t, frets, n, 12) * if upper_tones(tones) {
            2int
        } else if active >= 5 {
            6
        } else if active == 4 {
            8
        } else {
            14
        }
    }
}

/// A dense open bass grip: open strings below a run of stopped strings,
/// enough of them, all from the fifth fret up and within four frets.
#[verifier::opaque]
pub open spec fn dense_open_bass_grip_of(frets: Seq<Option<u8>>, n: int) -> bool {
    &&& !open_above_stopped(frets, n, n)
    &&& stopped_in_a_row(frets, n)
    &&& exists|k: int| 0 <= k < n && #[trigger] frets[k] == Some(0u8)
    &&& stopped_frets(frets, n).len() >= min_active_of(n)
    &&& stopped_frets(frets, n).len() > 0
    &&& forall|k: int| 0 <= k < n && #[trigger] stopped_string(frets, k) ==> frets[k]->0 >= 5
    &&& forall|a: int, b: int|
        0 <= a < n && 0 <= b < n && #[trigger] stopped_string(frets, a) && #[trigger] stopped_string(frets, b)
            ==> frets[a]->0 - frets[b]->0 <= 4
}

/// Some tone has pitch class `p`.
pub open spec fn tones_pitch(tones: Seq<ChordTone>, p: int) -> bool {
    exists|i: int| 0 <= i < tones.len() && #[trigger] tones[i].pitch_class == p
}

/// Cost of stopping string `i` above the third fret where its open string
/// already sounds a chord tone.
pub open spec fn bypass_cost_at(t: Tuning, frets: Seq<Option<u8>>, tones: Seq<ChordTone>, i: int) -> int {
    match frets[i] {
        Some(f) => if f > 3 && tones_pitch(tones, fret_pitch(t, i, 0)) {
            (f - 3) * (f - 3) * 12
        } else {
            0
        },
        None => 0,
    }
}

/// [`bypass_cost_at`] summed over strings `0..k`.
pub open spec fn bypass_cost_upto(t: Tuning, frets: Seq<Option<u8>>, tones: Seq<ChordTone>, k: int) -> int
    decreases k,
{
    if k <= 0 {
        0
    } else {
        bypass_cost_upto(t, frets, tones, k - 1) + bypass_cost_at(t, frets, tones, k - 1)
    }
}

/// Only one string is the lowest sounding one.
proof fn lemma_lowest_first_unique(t: Tuning, frets: Seq<Option<u8>>, n: int, s: int, r: int)
    requires
        lowest_first(t, frets, n, s),
        lowest_first(t, frets, n, r),
    ensures
        s == r,
{
    if s < r {
        assert(frets[s] is Some);
    } else if r < s {
        assert(frets[r] is Some);
    }
}

/// Bonus for an open lowest string on the expected bass under a low grip,
/// larger the more strings sound.
#[verifier::opaque]
pub open spec fn open_root_bass_bonus_of(t: Tuning, frets: Seq<Option<u8>>, expected: int, n: int) -> int {
    let played = sounding_count(frets, n);
    if (exists|s: int|
        #[trigger] lowest_first(t, frets, n, s) && frets[s] == Some(0u8) && fret_pitch(t, s, 0) == expected)
        && (forall|k: int| 0 <= k < n ==> (#[trigger] frets[k] matches Some(v) ==> v <= 4)) {
        if n >= 6 {
            if played >= 5 {
                18
            } else if played == 4 {
                14
            } else {
                8
            }
        } else if played == n {
            18
        } else if played + 1 == n {
            14
        } else {
            8
        }
    } else {
        0
    }
}

/// No string between two stopped strings is muted.
pub open spec fn sounding_between_stopped(frets: Seq<Option<u8>>, n: int) -> bool {
    forall|a: int, m: int, b: int|
        0 <= a < m < b < n && #[trigger] stopped_string(frets, a) && #[trigger] stopped_string(frets, b)
            ==> #[trigger] frets[m] is Some
}

/// Bonus for open bass strings under an unbroken grip from the fifth fret up
/// within four frets: full when at most one string is not stopped.
#[verifier::opaque]
pub open spec fn open_bass_grip_bonus_of(frets: Seq<Option<u8>>, has_open: bool, n: int) -> int {
    let count = stopped_frets(frets, n).len();
    if open_above_stopped(frets, n, n) || count == 0 || !has_open || !sounding_between_stopped(frets, n) || !(
    forall|k: int| 0 <= k < n && #[trigger] stopped_string(frets, k) ==> frets[k]->0 >= 5) || !(forall|a: int, b: int|
        0 <= a < n && 0 <= b < n && #[trigger] stopped_string(frets, a) && #[trigger] stopped_string(frets, b)
            ==> frets[a]->0 - frets[b]->0 <= 4) {
        0
    } else if count + 1 >= n {
        20
    } else {
        10
    }
}

/// Pitch class of the first tone of degree `d` among the first `k` tones.
pub open spec fn first_degree_pitch(tones: Seq<ChordTone>, d: int, k: int) -> Option<u8>
    decreases k,
{
    if k <= 0 {
        None
    } else {
        match first_degree_pitch(tones, d, k - 1) {
            Some(p) => Some(p),
            None => if tones[k - 1].degree == d {
                Some(tones[k - 1].pitch_class)
            } else {
                None
            },
        }
    }
}

/// Absolute pitch of string `i` as fretted.
pub open spec fn string_pitch(t: Tuning, frets: Seq<Option<u8>>, i: int) -> int {
    t.spec_open_pitch(i) + frets[i]->0
}

/// Strings `a` and `b` sound the lowest pitch `l` and the next lowest `x`.
pub open spec fn low_pair_at(t: Tuning, frets: Seq<Option<u8>>, n: int, l: int, x: int, a: int, b: int) -> bool {
    &&& 0 <= a < n && 0 <= b < n && a != b
    &&& frets[a] is Some && frets[b] is Some
    &&& string_pitch(t, frets, a) == l && string_pitch(t, frets, b) == x && l <= x
    &&& forall|k: int| 0 <= k < n && #[trigger] frets[k] is Some && k != a ==> string_pitch(t, frets, k) >= x
}

/// `l` and `x` are the two lowest sounding pitches, counted with repeats.
pub open spec fn low_pair(t: Tuning, frets: Seq<Option<u8>>, n: int, l: int, x: int) -> bool {
    exists|a: int, b: int| #[trigger] low_pair_at(t, frets, n, l, x, a, b)
}

/// The two lowest pitches do not depend on the strings that show them.
proof fn lemma_low_pair_unique(
    t: Tuning,
    frets: Seq<Option<u8>>,
    n: int,
    l: int,
    x: int,
    a: int,
    b: int,
    l2: int,
    x2: int,
    a2: int,
    b2: int,
)
    requires
        low_pair_at(t, frets, n, l, x, a, b),
        low_pair_at(t, frets, n, l2, x2, a2, b2),
    ensures
        l == l2 && x == x2,
{
    assert(frets[a] is Some && frets[a2] is Some && frets[b] is Some && frets[b2] is Some);
}

/// The two lowest sounding strings are the root and, at most two semitones
/// above it, the ninth of a chord with a ninth.
#[verifier::opaque]
pub open spec fn low_ninth_cluster(t: Tuning, frets: Seq<Option<u8>>, tones: Seq<ChordTone>, n: int) -> bool {
    tones_degree(tones, 9) && first_degree_pitch(tones, 1, tones.len() as int) is Some && first_degree_pitch(
        tones,
        9,
        tones.len() as int,
    ) is Some && exists|l: int, x: int|
        #[trigger] low_pair(t, frets, n, l, x) && pitch_mod(l) == first_degree_pitch(tones, 1, tones.len() as int)->0
            && pitch_mod(x) == first_degree_pitch(tones, 9, tones.len() as int)->0 && x - l <= 2
}

/// Cost of mixing open strings with high stopped frets.
fn high_open_mix_cost(
    frets: &[Option<u8>; 8],
    instrument: Instrument,
    profile: &FretProfile,
    n: usize,
) -> (c: u32)
    requires
        frets_ok(*frets, n as int),
        profile_wf(*profile, n as int),
    ensures
        c <= 12000,
        c == high_open_mix_cost_of(frets@, instrument, *profile, n as int),
{
    proof {
        reveal(high_open_mix_cost_of);
        reveal(compact_open_treble_grip_of);
    }
    let (min, max) = match (profile.min_non_open, profile.max_non_open) {
        (Some(a), Some(b)) => (a, b),
        _ => {
            return 0;
        },
    };
    if max <= 3 {
        return 0;
    }
    if !profile.has_open {
        return 0;
    }
    if instrument == Instrument::Ukulele && max <= 4 {
        return 0;
    }
    if compact_open_treble_grip(frets, profile, n) {
        return 0;
    }
    let mut first_fretted: Option<usize> = None;
    let mut fretted_count: u32 = 0;
    let mut previous_fretted: Option<usize> = None;
    let mut contiguous_fretted = true;
    let mut open_before_first_fretted = true;
    let mut idx: usize = 0;
    while idx < n
        invariant
            0 <= idx <= n <= 8,
            fretted_count <= idx,
            fretted_count == stopped_frets(frets@, idx as int).len(),
            previous_fretted matches Some(p) ==> p < idx && stopped_string(frets@, p as int) && forall|k: int|
                p < k < idx ==> !#[trigger] stopped_string(frets@, k),
            previous_fretted is None ==> forall|k: int| 0 <= k < idx ==> !#[trigger] stopped_string(frets@, k),
            first_fretted is Some <==> previous_fretted is Some,
            open_before_first_fretted == !open_above_stopped(frets@, n as int, idx as int),
            contiguous_fretted == stopped_in_a_row(frets@, idx as int),
        decreases n - idx,
    {
        let ghost fs = frets@;
        let ghost i = idx as int;
        proof {
            if !stopped_in_a_row(fs, i) {
                let (a, b, m) = choose|a: int, b: int, m: int|
                    0 <= a < m < b < i && #[trigger] stopped_string(fs, a) && #[trigger] stopped_string(fs, b)
                        && !#[trigger] stopped_string(fs, m);
                assert(!stopped_in_a_row(fs, i + 1));
            }
            if open_above_stopped(fs, n as int, i) {
                let (a, b) = choose|a: int, b: int|
                    0 <= a < b < i && b < n && #[trigger] stopped_string(fs, a) && #[trigger] fs[b] == Some(0u8);
                assert(open_above_stopped(fs, n as int, i + 1));
            }
        }
        match frets[idx] {
            Some(value) => {
                if value == 0 {
                    if first_fretted.is_some() {
                        open_before_first_fretted = false;
                        proof {
                            let p = previous_fretted->0 as int;
                            assert(stopped_string(fs, p) && fs[i] == Some(0u8));
                        }
                    }
                    proof {
                        assert(!stopped_string(fs, i));
                        if open_above_stopped(fs, n as int, i + 1) && !open_above_stopped(fs, n as int, i) {
                            let (a, b) = choose|a: int, b: int|
                                0 <= a < b < i + 1 && b < n && #[trigger] stopped_string(fs, a) && #[trigger] fs[b]
                                    == Some(0u8);
                            assert(b == i);
                            assert(previous_fretted is Some);
                        }
                        if stopped_in_a_row(fs, i) {
                            assert forall|a: int, b: int, m: int|
                                0 <= a < m < b < i + 1 && #[trigger] stopped_string(fs, a) && #[trigger] stopped_string(
                                    fs,
                                    b,
                                ) implies #[trigger] stopped_string(fs, m) by {
                                assert(b < i);
                            }
                        }
                    }
                } else {
                    assert(stopped_string(fs, i));
                    if first_fretted.is_none() {
                        first_fretted = Some(idx);
                    }
                    if let Some(previous) = previous_fretted {
                        if idx != previous + 1 {
                            contiguous_fretted = false;
                            proof {
                                assert(!stopped_string(fs, previous + 1));
                                assert(!stopped_in_a_row(fs, i + 1));
                            }
                        }
                    }
                    proof {
                        if !open_above_stopped(fs, n as int, i) {
                            assert(!open_above_stopped(fs, n as int, i + 1)) by {
                                if open_above_stopped(fs, n as int, i + 1) {
                                    let (a, b) = choose|a: int, b: int|
                                        0 <= a < b < i + 1 && b < n && #[trigger] stopped_string(fs, a)
                                            && #[trigger] fs[b] == Some(0u8);
                                    assert(b < i);
                                }
                            }
                        }
                        if contiguous_fretted {
                            assert forall|a: int, b: int, m: int|
                                0 <= a < m < b < i + 1 && #[trigger] stopped_string(fs, a) && #[trigger] stopped_string(
                                    fs,
                                    b,
                                ) implies #[trigger] stopped_string(fs, m) by {
                                if b == i {
                                    assert(previous_fretted is Some);
                                }
                            }
                        }
                    }
                    previous_fretted = Some(idx);
                    fretted_count += 1;
                }
            },
            None => {
                proof {
                    assert(!stopped_string(fs, i));
                    if open_above_stopped(fs, n as int, i + 1) {
                        let (a, b) = choose|a: int, b: int|
                            0 <= a < b < i + 1 && b < n && #[trigger] stopped_string(fs, a) && #[trigger] fs[b]
                                == Some(0u8);
                        assert(open_above_stopped(fs, n as int, i));
                    }
                    if stopped_in_a_row(fs, i) {
                        assert forall|a: int, b: int, m: int|
                            0 <= a < m < b < i + 1 && #[trigger] stopped_string(fs, a) && #[trigger] stopped_string(
                                fs,
                                b,
                            ) implies #[trigger] stopped_string(fs, m) by {
                            assert(b < i);
                        }
                    }
                }
            },
        }
        idx += 1;
    }
    if open_before_first_fretted {
        let excess: u32 = if max > 5 {
            (max - 5) as u32
        } else {
            0
        };
        assert(excess * excess * 4 <= 2500) by (nonlinear_arith)
            requires
                excess <= 25,
        ;
        if contiguous_fretted && fretted_count >= 4 {
            return excess * 2;
        }
        if contiguous_fretted && fretted_count >= 3 {
            return excess * excess * 2;
        }
        return excess * excess * 4;
    }
    let excess: u32 = (max - 3) as u32;
    assert(excess * excess * 16 <= 11664) by (nonlinear_arith)
        requires
            excess <= 27,
    ;
    let random_high_fret_cost = excess * excess * 16;
    let high_position_open_cost: u32 = if min >= 5 {
        24
    } else {
        0
    };
    random_high_fret_cost + high_position_open_cost
}

/// Cost of a low stopped string followed by an open one and more stopped strings.
fn low_open_gap_cost(frets: &[Option<u8>; 8], n: usize) -> (c: u32)
    requires
        frets_ok(*frets, n as int),
    ensures
        c <= 18,
        c == (if low_open_gap(frets@, n as int) {
            18int
        } else {
            0
        }),
{
    let mut first: Option<(usize, u8)> = None;
    let mut i: usize = 0;
    while i < n
        invariant_except_break
            first is None,
        invariant
            0 <= i <= n <= 8,
            forall|j: int| 0 <= j < i ==> #[trigger] frets@[j] is None,
        ensures
            first matches Some((idx, v)) ==> first_sounding(frets@, idx as int, n as int) && frets@[idx as int]
                == Some(v),
            first is None ==> forall|j: int| 0 <= j < n ==> #[trigger] frets@[j] is None,
        decreases n - i,
    {
        if let Some(v) = frets[i] {
            first = Some((i, v));
            break;
        }
        i += 1;
    }
    let (first_idx, first_fret) = match first {
        Some(f) => f,
        None => {
            proof {
                assert forall|fi: int| !first_sounding(frets@, fi, n as int) by {}
            }
            return 0;
        },
    };
    proof {
        assert forall|fi: int| #[trigger] first_sounding(frets@, fi, n as int) implies fi == first_idx by {
            if fi < first_idx {
                assert(frets@[fi] is None);
            } else if fi > first_idx {
                assert(frets@[first_idx as int] is None);
            }
        }
    }
    if first_fret == 0 {
        return 0;
    }
    let immediate_open = first_idx + 1 < 8 && frets[first_idx + 1] == Some(0u8);
    let mut fretted_above = false;
    let mut j: usize = first_idx + 2;
    while j < n
        invariant
            first_idx + 2 <= j,
            j == first_idx + 2 || j <= n,
            j <= 10,
            n <= 8,
            fretted_above == exists|k: int|
                first_idx + 2 <= k < j && (#[trigger] frets@[k] matches Some(v) && v > 0),
        decreases n - j,
    {
        if let Some(v) = frets[j] {
            if v > 0 {
                fretted_above = true;
            }
        }
        j += 1;
    }
    assert(fretted_above == exists|k: int|
        first_idx + 2 <= k < n && (#[trigger] frets@[k] matches Some(v) && v > 0));
    if immediate_open && fretted_above {
        assert(first_sounding(frets@, first_idx as int, n as int));
        18
    } else {
        0
    }
}

/// The string and fret of the lowest sounding pitch, first string first on ties.
fn lowest_played(frets: &[Option<u8>; 8], tuning: &Tuning, n: usize) -> (r: Option<(usize, u8)>)
    requires
        frets_ok(*frets, n as int),
        n == tuning.spec_string_count(),
    ensures
        r matches Some((s, f)) ==> s < n && frets@[s as int] == Some(f) && f <= 30,
        r matches Some((s, f)) ==> lowest_first(*tuning, frets@, n as int, s as int),
        r is None ==> forall|i: int| 0 <= i < n ==> #[trigger] frets@[i] is None,
{
    let mut best: Option<(i16, usize, u8)> = None;
    let mut i: usize = 0;
    while i < n
        invariant
            0 <= i <= n <= 8,
            n == tuning.spec_string_count(),
            frets_ok(*frets, n as int),
            best matches Some((_, s, f)) ==> s < i && frets@[s as int] == Some(f) && f <= 30,
            best matches Some((a, s, f)) ==> a == tuning.spec_open_pitch(s as int) + f && forall|j: int|
                0 <= j < s && #[trigger] frets@[j] is Some ==> tuning.spec_open_pitch(j) + frets@[j]->0 > a,
            best matches Some((a, s, f)) ==> forall|j: int|
                s < j < i && #[trigger] frets@[j] is Some ==> tuning.spec_open_pitch(j) + frets@[j]->0 >= a,
            best is None ==> forall|j: int| 0 <= j < i ==> #[trigger] frets@[j] is None,
        decreases n - i,
    {
        assert(fret_ok(frets@[i as int]));
        if let Some(fret) = frets[i] {
            let absolute = tuning.absolute_pitch(i, fret);
            let better = match best {
                Some((current, _, _)) => absolute < current,
                None => true,
            };
            if better {
                best = Some((absolute, i, fret));
            }
        }
        i += 1;
    }
    match best {
        Some((_, s, f)) => Some((s, f)),
        None => None,
    }
}

/// Cost of a lowest note other than the preferred bass.
fn preferred_bass_mismatch_cost(
    frets: &[Option<u8>; 8],
    tuning: &Tuning,
    preferred: Option<PitchClass>,
    n: usize,
) -> (c: u32)
    requires
        frets_ok(*frets, n as int),
        n == tuning.spec_string_count(),
    ensures
        c <= 100,
        c == preferred_bass_mismatch_cost_of(*tuning, frets@, n as int, preferred),
{
    let preferred = match preferred {
        Some(p) => p,
        None => {
            return 0;
        },
    };
    match lowest_played(frets, tuning, n) {
        Some((string, fret)) => {
            if tuning.pitch_at(string, fret).value() == preferred.value() {
                0
            } else {
                100
            }
        },
        None => 100,
    }
}

/// Cost of the omitted chord tones.
fn voicing_omission_cost(omissions: &Vec<InferredOmission>, formula: &ChordFormula) -> (c: u32)
    requires
        omissions@.len() <= 3,
    ensures
        c <= 480,
        c == omissions_cost_of(omissions@, omissions@.len() as int, upper_tones(formula.tones@)),
{
    let upper_structure = has_upper_structure(formula);
    let mut total: u32 = 0;
    let mut i: usize = 0;
    while i < omissions.len()
        invariant
            0 <= i <= omissions@.len() <= 3,
            total <= 160 * i,
            total == omissions_cost_of(omissions@, i as int, upper_structure),
            upper_structure == upper_tones(formula.tones@),
        decreases omissions@.len() - i,
    {
        total += match omissions[i] {
            InferredOmission::Root => if upper_structure {
                45
            } else {
                140
            },
            InferredOmission::Third => 160,
            InferredOmission::Fifth => if upper_structure {
                0
            } else {
                90
            },
        };
        i += 1;
    }
    total
}

/// Cost of inner mutes by how the grip holds them.
fn internal_mute_quality_cost(profile: &FretProfile, formula: &ChordFormula, instrument: Instrument) -> (c:
    u32)
    requires
        profile_wf(*profile, 8),
    ensures
        c <= 288,
        c == internal_mute_quality_cost_of(*profile, upper_tones(formula.tones@), instrument),
{
    let count = profile.internal_mutes;
    if count == 0 {
        return 0;
    }
    let upper = has_upper_structure(formula);
    let compact_extended_shell = upper && !profile.has_open && profile.active_count <= 4 && match profile.fret_span() {
        Some(span) => span <= 4,
        None => false,
    };
    if compact_extended_shell {
        return 0;
    }
    if !upper && profile.active_count >= 5 {
        return count * 36;
    }
    if profile.has_open {
        if instrument == Instrument::Ukulele {
            count * 12
        } else {
            count * 24
        }
    } else {
        count * 20
    }
}

/// Cost of muted strings above the last sounding one.
fn trailing_mute_cost(formula: &ChordFormula, profile: &FretProfile) -> (c: u32)
    requires
        profile_wf(*profile, 8),
    ensures
        c <= 80,
        c == trailing_mute_cost_of(*profile, upper_tones(formula.tones@)),
{
    let trailing = profile.trailing_mutes;
    if trailing == 0 {
        return 0;
    }
    let compact_extended_shell = has_upper_structure(formula) && profile.active_count <= 4;
    let unit: u32 = if compact_extended_shell {
        2
    } else if profile.active_count >= 5 {
        8
    } else {
        10
    };
    trailing as u32 * unit
}

/// Ukulele cost of grips high on the neck.
fn ukulele_high_position_cost(profile: &FretProfile) -> (c: u32)
    requires
        profile_wf(*profile, 8),
    ensures
        c <= 2000,
        c == ukulele_high_position_cost_of(*profile),
{
    let (min, max) = match (profile.min_non_open, profile.max_non_open) {
        (Some(a), Some(b)) => (a, b),
        _ => {
            return 0;
        },
    };
    if min >= 7 {
        let excess = (min - 6) as u32;
        assert(excess * excess * 3 <= 1728) by (nonlinear_arith)
            requires
                excess <= 24,
        ;
        return 36 + excess * excess * 3;
    }
    if max >= 7 && min <= 4 {
        let excess = (max - 6) as u32;
        return if profile.has_open {
            24 + excess * 4
        } else {
            18 + excess * 4
        };
    }
    0
}

/// Ukulele cost of a muted top string.
fn ukulele_treble_mute_cost(frets: &[Option<u8>; 8], active_count: usize, n: usize) -> (c: u32)
    requires
        n <= 8,
        active_count <= 8,
    ensures
        c <= 18,
        c == ukulele_treble_mute_cost_of(frets@, active_count as int, n as int),
{
    if n != 4 || frets[n - 1].is_some() {
        return 0;
    }
    if active_count + 1 == n {
        18
    } else {
        8
    }
}

/// Costs particular to the instrument.
fn instrument_voicing_cost(
    frets: &[Option<u8>; 8],
    instrument: Instrument,
    profile: &FretProfile,
    n: usize,
) -> (c: u32)
    requires
        profile_wf(*profile, 8),
        n <= 8,
    ensures
        c <= 2018,
        c == (if instrument == Instrument::Ukulele {
            ukulele_high_position_cost_of(*profile) + ukulele_treble_mute_cost_of(
                frets@,
                profile.active_count as int,
                n as int,
            )
        } else {
            0
        }),
{
    if instrument != Instrument::Ukulele {
        return 0;
    }
    ukulele_high_position_cost(profile) + ukulele_treble_mute_cost(frets, profile.active_count, n)
}

/// Guitar bonus for full open-position grips.
fn guitar_open_position_bonus(profile: &FretProfile, n: usize) -> (b: u32)
    ensures
        b <= 8,
        b == guitar_open_position_bonus_of(*profile, n as int),
{
    if n != 6 || !profile.has_open || profile.active_count < 4 {
        return 0;
    }
    match profile.max_non_open {
        Some(max) => if max <= 3 && profile.trailing_mutes == 0 {
            8
        } else {
            0
        },
        None => 0,
    }
}

/// Guitar bonus for an added ninth over an open top string.
fn guitar_open_treble_extension_bonus(
    frets: &[Option<u8>; 8],
    formula: &ChordFormula,
    profile: &FretProfile,
    n: usize,
) -> (b: u32)
    requires
        profile_wf(*profile, 8),
        n <= 8,
    ensures
        b <= 24,
        b == guitar_open_treble_extension_bonus_of(frets@, formula.tones@, *profile, n as int),
{
    if n != 6 || !profile.has_open || profile.active_count < 5 || frets[n - 1] != Some(0u8)
        || !formula_has_degree(formula, 9) || formula_has_degree(formula, 7) {
        return 0;
    }
    let span = match profile.fret_span() {
        Some(s) => s,
        None => {
            return 0;
        },
    };
    let max = match profile.max_non_open {
        Some(m) => m,
        None => {
            return 0;
        },
    };
    if span <= 4 && max <= 5 {
        24
    } else {
        0
    }
}

/// Ukulele bonus for a full open grip whose stopped frets step across the neck.
fn ukulele_diagonal_open_grip_bonus(profile: &FretProfile, n: usize) -> (b: u32)
    requires
        profile_wf(*profile, 8),
    ensures
        b <= 12,
        b == ukulele_diagonal_bonus_of(*profile, n as int),
{
    let count = profile.non_open_count;
    if n != 4 || !profile.has_open || profile.active_count != n || count < 3 {
        return 0;
    }
    let (min, max) = match (profile.min_non_open, profile.max_non_open) {
        (Some(a), Some(b)) => (a, b),
        _ => {
            return 0;
        },
    };
    if max > 4 || (max - min) as usize + 1 != count {
        return 0;
    }
    let mut seen = [false; 5];
    let mut i: usize = 0;
    while i < count
        invariant
            0 <= i <= count <= 8,
            profile_wf(*profile, 8),
            count == profile.non_open_count,
            min == profile.min_non_open->0,
            forall|j: int| 0 <= j < i ==> fret_offset(#[trigger] profile.non_open@[j], min) < 5,
            forall|j: int, k: int|
                0 <= j < k < i ==> fret_offset(#[trigger] profile.non_open@[j], min) != fret_offset(
                    #[trigger] profile.non_open@[k],
                    min,
                ),
            forall|o: int|
                0 <= o < 5 ==> (#[trigger] seen@[o] <==> exists|j: int|
                    0 <= j < i && fret_offset(#[trigger] profile.non_open@[j], min) == o),
        decreases count - i,
    {
        let fret = profile.non_open[i];
        let offset: usize = if fret > min {
            (fret - min) as usize
        } else {
            0
        };
        assert(offset == fret_offset(profile.non_open@[i as int], min));
        if offset >= 5 || seen[offset] {
            return 0;
        }
        seen[offset] = true;
        proof {
            assert forall|o: int| 0 <= o < 5 implies (#[trigger] seen@[o] <==> exists|j: int|
                0 <= j < i + 1 && fret_offset(#[trigger] profile.non_open@[j], min) == o) by {
                if o == offset {
                    assert(fret_offset(profile.non_open@[i as int], min) == o);
                }
            }
        }
        i += 1;
    }
    12
}

/// Bonuses particular to the instrument.
fn instrument_voicing_bonus(
    frets: &[Option<u8>; 8],
    instrument: Instrument,
    formula: &ChordFormula,
    profile: &FretProfile,
    n: usize,
) -> (b: u32)
    requires
        profile_wf(*profile, 8),
        n <= 8,
    ensures
        b <= 32,
        b == (match instrument {
            Instrument::Guitar => guitar_open_position_bonus_of(*profile, n as int)
                + guitar_open_treble_extension_bonus_of(frets@, formula.tones@, *profile, n as int),
            Instrument::Ukulele => ukulele_diagonal_bonus_of(*profile, n as int),
            _ => 0,
        }),
{
    match instrument {
        Instrument::Guitar => guitar_open_position_bonus(profile, n)
            + guitar_open_treble_extension_bonus(frets, formula, profile, n),
        Instrument::Ukulele => ukulele_diagonal_open_grip_bonus(profile, n),
        _ => 0,
    }
}

/// Cost of repeated pitches in sparse or broken grips.
fn sparse_duplicate_pitch_cost(
    frets: &[Option<u8>; 8],
    tuning: &Tuning,
    formula: &ChordFormula,
    profile: &FretProfile,
    n: usize,
) -> (c: u32)
    requires
        frets_ok(*frets, n as int),
        n == tuning.spec_string_count(),
        profile_wf(*profile, n as int),
    ensures
        c <= 12 * 8 * 14,
        c == sparse_duplicate_cost_of(*tuning, frets@, formula.tones@, *profile, n as int),
{
    proof {
        reveal(sparse_duplicate_cost_of);
    }
    let active_count = profile.active_count;
    let internal = profile.internal_mutes;
    if active_count >= 5 && internal == 0 {
        return 0;
    }
    let open_complete_grip = profile.has_open && internal == 0;
    if active_count == n && open_complete_grip && profile.trailing_mutes == 0 {
        return 0;
    }
    let counts = pitch_counts(frets, tuning, n);
    let mut instances: u32 = 0;
    let mut p: usize = 0;
    while p < 12
        invariant
            0 <= p <= 12,
            n <= 8,
            forall|q: int| 0 <= q < 12 ==> #[trigger] counts@[q] <= n,
            forall|q: int| 0 <= q < 12 ==> #[trigger] counts@[q] == strings_on_pitch(*tuning, frets@, n as int, q),
            instances <= p * 8,
            instances == repeated_strings_upto(*tuning, frets@, n as int, p as int),
        decreases 12 - p,
    {
        if counts[p] > 0 {
            instances += (counts[p] - 1) as u32;
        }
        p += 1;
    }
    if instances == 0 {
        return 0;
    }
    let unit: u32 = if has_upper_structure(formula) {
        2
    } else if active_count >= 5 {
        6
    } else if active_count == 4 {
        8
    } else {
        14
    };
    instances * unit
}

/// A dense grip: open bass strings under a compact block of stopped strings
/// from the fifth fret up.
fn dense_open_bass_grip(frets: &[Option<u8>; 8], n: usize) -> (r: bool)
    requires
        frets_ok(*frets, n as int),
    ensures
        r == dense_open_bass_grip_of(frets@, n as int),
{
    proof {
        reveal(dense_open_bass_grip_of);
    }
    let mut has_open = false;
    let mut first_fretted: Option<usize> = None;
    let mut previous_fretted: Option<usize> = None;
    let mut fretted_count: usize = 0;
    let mut min_non_open: Option<u8> = None;
    let mut max_non_open: Option<u8> = None;
    let mut idx: usize = 0;
    while idx < n
        invariant
            0 <= idx <= n <= 8,
            fretted_count <= idx,
            fretted_count == stopped_frets(frets@, idx as int).len(),
            previous_fretted matches Some(p) ==> p < idx && stopped_string(frets@, p as int) && forall|k: int|
                p < k < idx ==> !#[trigger] stopped_string(frets@, k),
            previous_fretted is None ==> forall|k: int| 0 <= k < idx ==> !#[trigger] stopped_string(frets@, k),
            first_fretted is Some <==> previous_fretted is Some,
            !open_above_stopped(frets@, n as int, idx as int),
            stopped_in_a_row(frets@, idx as int),
            has_open == exists|k: int| 0 <= k < idx && #[trigger] frets@[k] == Some(0u8),
            min_non_open matches Some(a) ==> (max_non_open matches Some(b) ==> a <= b),
            (min_non_open is Some) == (max_non_open is Some),
            (min_non_open is Some) == (previous_fretted is Some),
            (fretted_count > 0) == (previous_fretted is Some),
            min_non_open matches Some(m) ==> (forall|k: int|
                0 <= k < idx && #[trigger] stopped_string(frets@, k) ==> m <= frets@[k]->0) && exists|k: int|
                0 <= k < idx && #[trigger] stopped_string(frets@, k) && frets@[k]->0 == m,
            max_non_open matches Some(m) ==> (forall|k: int|
                0 <= k < idx && #[trigger] stopped_string(frets@, k) ==> frets@[k]->0 <= m) && exists|k: int|
                0 <= k < idx && #[trigger] stopped_string(frets@, k) && frets@[k]->0 == m,
        decreases n - idx,
    {
        proof {
            reveal(dense_open_bass_grip_of);
        }
        let ghost fs = frets@;
        let ghost i = idx as int;
        match frets[idx] {
            Some(value) => {
                if value == 0 {
                    if first_fretted.is_some() {
                        proof {
                            let p = previous_fretted->0 as int;
                            assert(stopped_string(fs, p) && fs[i] == Some(0u8));
                            assert(open_above_stopped(fs, n as int, n as int));
                        }
                        return false;
                    }
                    has_open = true;
                    proof {
                        assert(!open_above_stopped(fs, n as int, i + 1)) by {
                            if open_above_stopped(fs, n as int, i + 1) {
                                let (a, b) = choose|a: int, b: int|
                                    0 <= a < b < i + 1 && b < n && #[trigger] stopped_string(fs, a)
                                        && #[trigger] fs[b] == Some(0u8);
                            }
                        }
                        assert forall|a: int, b: int, m: int|
                            0 <= a < m < b < i + 1 && #[trigger] stopped_string(fs, a) && #[trigger] stopped_string(
                                fs,
                                b,
                            ) implies #[trigger] stopped_string(fs, m) by {
                            assert(b < i);
                        }
                    }
                } else {
                    assert(stopped_string(fs, i));
                    if first_fretted.is_none() {
                        first_fretted = Some(idx);
                    }
                    if let Some(previous) = previous_fretted {
                        if idx != previous + 1 {
                            proof {
                                assert(!stopped_string(fs, previous + 1));
                                assert(!stopped_in_a_row(fs, n as int));
                            }
                            return false;
                        }
                    }
                    proof {
                        assert(!open_above_stopped(fs, n as int, i + 1)) by {
                            if open_above_stopped(fs, n as int, i + 1) {
                                let (a, b) = choose|a: int, b: int|
                                    0 <= a < b < i + 1 && b < n && #[trigger] stopped_string(fs, a)
                                        && #[trigger] fs[b] == Some(0u8);
                                assert(b < i);
                            }
                        }
                        assert forall|a: int, b: int, m: int|
                            0 <= a < m < b < i + 1 && #[trigger] stopped_string(fs, a) && #[trigger] stopped_string(
                                fs,
                                b,
                            ) implies #[trigger] stopped_string(fs, m) by {
                            if b == i {
                                assert(previous_fretted is Some);
                            }
                        }
                    }
                    previous_fretted = Some(idx);
                    fretted_count += 1;
                    min_non_open = Some(
                        match min_non_open {
                            Some(c) => if value < c {
                                value
                            } else {
                                c
                            },
                            None => value,
                        },
                    );
                    max_non_open = Some(
                        match max_non_open {
                            Some(c) => if value > c {
                                value
                            } else {
                                c
                            },
                            None => value,
                        },
                    );
                }
            },
            None => {
                proof {
                    assert(!stopped_string(fs, i));
                    assert(!open_above_stopped(fs, n as int, i + 1)) by {
                        if open_above_stopped(fs, n as int, i + 1) {
                            let (a, b) = choose|a: int, b: int|
                                0 <= a < b < i + 1 && b < n && #[trigger] stopped_string(fs, a) && #[trigger] fs[b]
                                    == Some(0u8);
                            assert(b < i);
                        }
                    }
                    assert forall|a: int, b: int, m: int|
                        0 <= a < m < b < i + 1 && #[trigger] stopped_string(fs, a) && #[trigger] stopped_string(
                            fs,
                            b,
                        ) implies #[trigger] stopped_string(fs, m) by {
                        assert(b < i);
                    }
                }
            },
        }
        idx += 1;
    }
    let min_fretted: usize = if n >= 6 {
        4
    } else if n > 0 {
        n - 1
    } else {
        0
    };
    if !has_open || fretted_count < min_fretted {
        return false;
    }
    match (min_non_open, max_non_open) {
        (Some(min), Some(max)) => {
            proof {
                let ka = choose|k: int| 0 <= k < n && #[trigger] stopped_string(frets@, k) && frets@[k]->0 == min;
                let kb = choose|k: int| 0 <= k < n && #[trigger] stopped_string(frets@, k) && frets@[k]->0 == max;
                assert(stopped_string(frets@, ka) && stopped_string(frets@, kb));
                if min >= 5 && max - min <= 4 {
                    assert forall|a: int, b: int|
                        0 <= a < n && 0 <= b < n && #[trigger] stopped_string(frets@, a) && #[trigger] stopped_string(
                            frets@,
                            b,
                        ) implies frets@[a]->0 - frets@[b]->0 <= 4 by {
                        assert(frets@[a]->0 <= max);
                        assert(min <= frets@[b]->0);
                    }
                }
            }
            min >= 5 && max - min <= 4
        },
        _ => false,
    }
}

/// Cost of stopping a string above the fourth fret where its open pitch is
/// already a chord tone.
fn open_chord_tone_bypass_cost(
    frets: &[Option<u8>; 8],
    tuning: &Tuning,
    formula: &ChordFormula,
    profile: &FretProfile,
    n: usize,
) -> (c: u32)
    requires
        frets_ok(*frets, n as int),
        n == tuning.spec_string_count(),
        profile_wf(*profile, n as int),
        formula.wf(),
    ensures
        c <= 8 * 8748,
        c == (if !profile.has_open || dense_open_bass_grip_of(frets@, n as int) || compact_open_treble_grip_of(
            frets@,
            *profile,
            n as int,
        ) {
            0
        } else {
            bypass_cost_upto(*tuning, frets@, formula.tones@, n as int)
        }),
{
    if !profile.has_open || dense_open_bass_grip(frets, n) || compact_open_treble_grip(frets, profile, n) {
        return 0;
    }
    let target = formula.pitch_set();
    let mut total: u32 = 0;
    let mut i: usize = 0;
    while i < n
        invariant
            0 <= i <= n <= 8,
            n == tuning.spec_string_count(),
            frets_ok(*frets, n as int),
            total <= i * 8748,
            total == bypass_cost_upto(*tuning, frets@, formula.tones@, i as int),
            forall|p: int| target.has(p) <==> tones_pitch(formula.tones@, p),
        decreases n - i,
    {
        assert(fret_ok(frets@[i as int]));
        if let Some(fret) = frets[i] {
            if fret > 3 && target.contains(tuning.pitch_at(i, 0)) {
                let excess = (fret - 3) as u32;
                assert(excess * excess * 12 <= 8748) by (nonlinear_arith)
                    requires
                        excess <= 27,
                ;
                total += excess * excess * 12;
            }
        }
        i += 1;
    }
    total
}

/// Cost of a ninth crowded against the root at the bottom of the voicing.
fn low_added_ninth_cluster_cost(
    frets: &[Option<u8>; 8],
    tuning: &Tuning,
    formula: &ChordFormula,
    n: usize,
) -> (c: u32)
    requires
        frets_ok(*frets, n as int),
        n == tuning.spec_string_count(),
    ensures
        c <= 42,
        c == (if low_ninth_cluster(*tuning, frets@, formula.tones@, n as int) {
            42int
        } else {
            0
        }),
{
    proof {
        reveal(low_ninth_cluster);
    }
    if !formula_has_degree(formula, 9) {
        return 0;
    }
    let mut root_pc: Option<u8> = None;
    let mut ninth_pc: Option<u8> = None;
    let mut t: usize = 0;
    while t < formula.tones.len()
        invariant
            0 <= t <= formula.tones@.len(),
            root_pc == first_degree_pitch(formula.tones@, 1, t as int),
            ninth_pc == first_degree_pitch(formula.tones@, 9, t as int),
        decreases formula.tones@.len() - t,
    {
        let tone = formula.tones[t];
        if root_pc.is_none() && tone.degree == 1 {
            root_pc = Some(tone.pitch_class);
        }
        if ninth_pc.is_none() && tone.degree == 9 {
            ninth_pc = Some(tone.pitch_class);
        }
        t += 1;
    }
    let (root, ninth) = match (root_pc, ninth_pc) {
        (Some(r), Some(x)) => (r, x),
        _ => {
            return 0;
        },
    };
    let mut low: Option<i16> = None;
    let mut next: Option<i16> = None;
    let mut count: usize = 0;
    let mut i: usize = 0;
    let ghost mut li: int = 0;
    let ghost mut lj: int = 0;
    let ghost t = *tuning;
    let ghost fs = frets@;
    while i < n
        invariant
            0 <= i <= n <= 8,
            n == tuning.spec_string_count(),
            frets_ok(*frets, n as int),
            t == *tuning,
            fs == frets@,
            count <= i,
            count == 0 ==> low is None && next is None,
            count == 1 ==> low is Some && next is None,
            count >= 2 ==> low is Some && next is Some,
            low matches Some(l) ==> 0 <= l,
            (low matches Some(l) ==> (next matches Some(x) ==> l <= x)),
            count == 0 ==> forall|k: int| 0 <= k < i ==> #[trigger] fs[k] is None,
            count >= 1 ==> 0 <= li < i && fs[li] is Some && string_pitch(t, fs, li) == low->0 && forall|k: int|
                0 <= k < i && #[trigger] fs[k] is Some ==> string_pitch(t, fs, k) >= low->0,
            count == 1 ==> forall|k: int| 0 <= k < i && #[trigger] fs[k] is Some ==> k == li,
            count >= 2 ==> 0 <= lj < i && lj != li && fs[lj] is Some && string_pitch(t, fs, lj) == next->0
                && forall|k: int| 0 <= k < i && #[trigger] fs[k] is Some && k != li ==> string_pitch(t, fs, k) >= next->0,
        decreases n - i,
    {
        assert(fret_ok(frets@[i as int]));
        if let Some(fret) = frets[i] {
            let p = tuning.absolute_pitch(i, fret);
            assert(string_pitch(t, fs, i as int) == p);
            match low {
                None => {
                    low = Some(p);
                    proof {
                        li = i as int;
                    }
                },
                Some(l) => {
                    if p < l {
                        next = Some(l);
                        low = Some(p);
                        proof {
                            lj = li;
                            li = i as int;
                        }
                    } else {
                        match next {
                            None => {
                                next = Some(p);
                                proof {
                                    lj = i as int;
                                }
                            },
                            Some(x) => {
                                if p < x {
                                    next = Some(p);
                                    proof {
                                        lj = i as int;
                                    }
                                }
                            },
                        }
                    }
                },
            }
            count += 1;
        }
        i += 1;
    }
    if count < 2 {
        proof {
            assert forall|l: int, x: int| !#[trigger] low_pair(t, fs, n as int, l, x) by {
                if low_pair(t, fs, n as int, l, x) {
                    let (a, b) = choose|a: int, b: int| #[trigger] low_pair_at(t, fs, n as int, l, x, a, b);
                    assert(fs[a] is Some && fs[b] is Some);
                }
            }
        }
        return 0;
    }
    let (l, x) = match (low, next) {
        (Some(a), Some(b)) => (a, b),
        _ => {
            return 0;
        },
    };
    proof {
        assert(low_pair_at(t, fs, n as int, l as int, x as int, li, lj));
        assert forall|l2: int, x2: int| #[trigger] low_pair(t, fs, n as int, l2, x2) implies l2 == l && x2 == x by {
            let (a, b) = choose|a: int, b: int| #[trigger] low_pair_at(t, fs, n as int, l2, x2, a, b);
            lemma_low_pair_unique(t, fs, n as int, l as int, x as int, li, lj, l2, x2, a, b);
        }
    }
    let low_pitch = PitchClass::new(l);
    let next_pitch = PitchClass::new(x);
    proof {
        assert(low_pair(t, fs, n as int, l as int, x as int));
    }
    if low_pitch.value() == root && next_pitch.value() == ninth && x - l <= 2 {
        42
    } else {
        0
    }
}


/// A barre: one finger across strings `start..=end` at `fret`, saving
/// `saving` fingers, possibly bridging muted strings.
#[derive(Copy, Clone, Debug, Eq, PartialEq)]
struct BarreCandidate {
    fret: u8,
    start: usize,
    end: usize,
    saving: usize,
    bridged_mute: bool,
}

/// How a string stands to a barre at `fret`: `0` stopped at it, `1` stopped
/// above it, `2` muted, `3` open or stopped below it.
pub open spec fn barre_relation(f: Option<u8>, fret: int) -> int {
    match f {
        Some(v) => if v == fret {
            0
        } else if v > fret {
            1
        } else {
            3
        },
        None => 2,
    }
}

/// Number of strings among `lo..hi` in relation `kind` to a barre at `fret`.
pub open spec fn strings_at(frets: Seq<Option<u8>>, fret: int, lo: int, hi: int, kind: int) -> nat
    decreases hi - lo,
{
    if hi <= lo {
        0
    } else {
        strings_at(frets, fret, lo, hi - 1, kind) + if barre_relation(frets[hi - 1], fret) == kind {
            1nat
        } else {
            0
        }
    }
}

/// Whether a barre at `fret` fits strings `lo..hi`, and whether it bridges
/// muted strings.
pub open spec fn barre_range_of(frets: Seq<Option<u8>>, fret: int, lo: int, hi: int) -> Option<bool> {
    let exact = strings_at(frets, fret, lo, hi, 0);
    let higher = strings_at(frets, fret, lo, hi, 1);
    let muted = strings_at(frets, fret, lo, hi, 2);
    if strings_at(frets, fret, lo, hi, 3) > 0 {
        None
    } else if muted == 0 {
        Some(false)
    } else if exact >= 3 && higher > 0 && muted <= exact {
        Some(true)
    } else {
        None
    }
}

/// A longer range counts no fewer strings of a kind.
proof fn lemma_strings_at_grow(frets: Seq<Option<u8>>, fret: int, lo: int, mid: int, hi: int, kind: int)
    requires
        lo <= mid <= hi,
    ensures
        strings_at(frets, fret, lo, mid, kind) <= strings_at(frets, fret, lo, hi, kind),
    decreases hi - mid,
{
    if hi > mid {
        lemma_strings_at_grow(frets, fret, lo, mid, hi - 1, kind);
    }
}

/// Whether a barre at `fret` can lie across `start..=end`: no string there
/// is stopped lower, and muted strings are bridged only by a real barre of
/// at least three strings with a higher note among them. `Some(true)` when
/// it bridges muted strings.
fn barre_range(frets: &[Option<u8>; 8], fret: u8, start: usize, end: usize) -> (r: Option<bool>)
    requires
        start <= end < 8,
    ensures
        r == barre_range_of(frets@, fret as int, start as int, end + 1),
{
    let mut exact_count: usize = 0;
    let mut higher_count: usize = 0;
    let mut muted_count: usize = 0;
    let mut i: usize = start;
    while i <= end
        invariant
            start <= i <= end + 1,
            end < 8,
            exact_count + higher_count + muted_count <= i - start,
            exact_count == strings_at(frets@, fret as int, start as int, i as int, 0),
            higher_count == strings_at(frets@, fret as int, start as int, i as int, 1),
            muted_count == strings_at(frets@, fret as int, start as int, i as int, 2),
            strings_at(frets@, fret as int, start as int, i as int, 3) == 0,
        decreases end + 1 - i,
    {
        match frets[i] {
            Some(value) => {
                if value == fret {
                    exact_count += 1;
                } else if value > fret {
                    higher_count += 1;
                } else {
                    proof {
                        lemma_strings_at_grow(frets@, fret as int, start as int, i + 1, end + 1, 3);
                    }
                    return None;
                }
            },
            None => {
                muted_count += 1;
            },
        }
        i += 1;
    }
    if muted_count == 0 {
        Some(false)
    } else if exact_count >= 3 && higher_count > 0 && muted_count <= exact_count {
        Some(true)
    } else {
        None
    }
}

/// Eight strings, none marked.
pub open spec fn none_marked() -> Seq<bool> {
    Seq::new(8, |i: int| false)
}

/// String `k` is stopped at `fret` and neither covered nor blocked.
pub open spec fn barre_free(frets: Seq<Option<u8>>, covered: Seq<bool>, blocked: Seq<bool>, fret: u8, k: int) -> bool {
    frets[k] == Some(fret) && !covered[k] && !blocked[k]
}

/// Number of free strings at `fret` among `lo..hi`.
pub open spec fn free_count(
    frets: Seq<Option<u8>>,
    covered: Seq<bool>,
    blocked: Seq<bool>,
    fret: u8,
    lo: int,
    hi: int,
) -> nat
    decreases hi - lo,
{
    if hi <= lo {
        0
    } else {
        free_count(frets, covered, blocked, fret, lo, hi - 1) + if barre_free(frets, covered, blocked, fret, hi - 1) {
            1nat
        } else {
            0
        }
    }
}

/// A barre at `fret` from free string `start` to free string `end` fits.
pub open spec fn barre_fits(
    frets: Seq<Option<u8>>,
    covered: Seq<bool>,
    blocked: Seq<bool>,
    n: int,
    fret: u8,
    start: int,
    end: int,
) -> bool {
    &&& 0 <= start < end < n
    &&& fret > 0
    &&& barre_free(frets, covered, blocked, fret, start)
    &&& barre_free(frets, covered, blocked, fret, end)
    &&& barre_range_of(frets, fret as int, start, end + 1) is Some
}

/// Fingers that a barre at `fret` over `start..=end` saves.
pub open spec fn barre_saving(
    frets: Seq<Option<u8>>,
    covered: Seq<bool>,
    blocked: Seq<bool>,
    fret: u8,
    start: int,
    end: int,
) -> int {
    free_count(frets, covered, blocked, fret, start, end + 1) - 1
}

/// `best` saves more than the barre at `fret` over `start..=end`, or as
/// much and is at least as wide.
spec fn barre_beaten(
    frets: Seq<Option<u8>>,
    covered: Seq<bool>,
    blocked: Seq<bool>,
    fret: u8,
    start: int,
    end: int,
    best: Option<BarreCandidate>,
) -> bool {
    match best {
        Some(b) => barre_saving(frets, covered, blocked, fret, start, end) < b.saving || (barre_saving(
            frets,
            covered,
            blocked,
            fret,
            start,
            end,
        ) == b.saving && end - start <= b.end - b.start),
        None => false,
    }
}

/// `b` is a fitting barre with its saving and bridging recorded.
spec fn barre_recorded(
    frets: Seq<Option<u8>>,
    covered: Seq<bool>,
    blocked: Seq<bool>,
    n: int,
    b: BarreCandidate,
) -> bool {
    &&& barre_fits(frets, covered, blocked, n, b.fret, b.start as int, b.end as int)
    &&& b.saving == barre_saving(frets, covered, blocked, b.fret, b.start as int, b.end as int)
    &&& b.bridged_mute == barre_range_of(frets, b.fret as int, b.start as int, b.end + 1)->0
}

/// The barre saving most fingers among strings not yet covered or blocked,
/// the widest on ties.
fn best_barre(frets: &[Option<u8>; 8], covered: &[bool; 8], blocked: &[bool; 8], n: usize) -> (r:
    Option<BarreCandidate>)
    requires
        n <= 8,
    ensures
        r matches Some(b) ==> b.start < b.end < n && frets@[b.start as int] == Some(b.fret)
            && !covered@[b.start as int] && b.fret > 0 && frets@[b.end as int] == Some(b.fret)
            && !covered@[b.end as int],
        r matches Some(b) ==> barre_recorded(frets@, covered@, blocked@, n as int, b),
        forall|fret: u8, start: int, end: int|
            #[trigger] barre_fits(frets@, covered@, blocked@, n as int, fret, start, end) ==> barre_beaten(
                frets@,
                covered@,
                blocked@,
                fret,
                start,
                end,
                r,
            ),
{
    let ghost fs = frets@;
    let ghost cs = covered@;
    let ghost bs = blocked@;
    let mut best: Option<BarreCandidate> = None;
    let mut unique: [u8; 8] = [0; 8];
    let mut unique_count: usize = 0;
    let mut i: usize = 0;
    while i < n
        invariant
            0 <= i <= n <= 8,
            unique_count <= i,
            forall|k: int| 0 <= k < unique_count ==> #[trigger] unique@[k] > 0,
            forall|k: int|
                0 <= k < i && #[trigger] stopped_string(frets@, k) ==> exists|j: int|
                    0 <= j < unique_count && #[trigger] unique@[j] == frets@[k]->0,
        decreases n - i,
    {
        if let Some(fret) = frets[i] {
            if fret > 0 {
                let mut seen = false;
                let mut k: usize = 0;
                while k < unique_count
                    invariant
                        0 <= k <= unique_count <= 8,
                        seen ==> exists|j: int| 0 <= j < unique_count && #[trigger] unique@[j] == fret,
                    decreases unique_count - k,
                {
                    if unique[k] == fret {
                        seen = true;
                    }
                    k += 1;
                }
                if !seen {
                    let ghost before = unique@;
                    unique[unique_count] = fret;
                    proof {
                        assert(unique@[unique_count as int] == fret);
                        assert forall|k: int|
                            0 <= k < i && #[trigger] stopped_string(frets@, k) implies exists|j: int|
                                0 <= j < unique_count + 1 && #[trigger] unique@[j] == frets@[k]->0 by {
                            let j = choose|j: int| 0 <= j < unique_count && #[trigger] before[j] == frets@[k]->0;
                            assert(unique@[j] == before[j]);
                        }
                    }
                    unique_count += 1;
                }
                proof {
                    assert(exists|j: int| 0 <= j < unique_count && #[trigger] unique@[j] == fret);
                }
            }
        }
        i += 1;
    }
    let mut u: usize = 0;
    while u < unique_count
        invariant
            0 <= u <= unique_count <= n <= 8,
            fs == frets@,
            cs == covered@,
            bs == blocked@,
            forall|k: int| 0 <= k < unique_count ==> #[trigger] unique@[k] > 0,
            forall|k: int|
                0 <= k < n && #[trigger] stopped_string(frets@, k) ==> exists|j: int|
                    0 <= j < unique_count && #[trigger] unique@[j] == frets@[k]->0,
            best matches Some(b) ==> barre_recorded(fs, cs, bs, n as int, b),
            forall|fret: u8, start: int, end: int|
                #[trigger] barre_fits(fs, cs, bs, n as int, fret, start, end) && (exists|j: int|
                    0 <= j < u && #[trigger] unique@[j] == fret) ==> barre_beaten(fs, cs, bs, fret, start, end, best),
        decreases unique_count - u,
    {
        let fret = unique[u];
        assert(fret > 0);
        let mut start: usize = 0;
        while start < n
            invariant
                0 <= start <= n <= 8,
                u < unique_count,
                fret == unique@[u as int],
                fret > 0,
                fs == frets@,
                cs == covered@,
                bs == blocked@,
                best matches Some(b) ==> barre_recorded(fs, cs, bs, n as int, b),
                forall|fret: u8, start: int, end: int|
                    #[trigger] barre_fits(fs, cs, bs, n as int, fret, start, end) && (exists|j: int|
                        0 <= j < u && #[trigger] unique@[j] == fret) ==> barre_beaten(fs, cs, bs, fret, start, end, best),
                forall|s2: int, end: int|
                    #[trigger] barre_fits(fs, cs, bs, n as int, fret, s2, end) && s2 < start ==> barre_beaten(
                        fs,
                        cs,
                        bs,
                        fret,
                        s2,
                        end,
                        best,
                    ),
            decreases n - start,
        {
            if frets[start] == Some(fret) && !covered[start] && !blocked[start] {
                let mut end: usize = start + 1;
                while end < n
                    invariant
                        start < end <= n,
                        start < n <= 8,
                        u < unique_count,
                        fret == unique@[u as int],
                        fret > 0,
                        fs == frets@,
                        cs == covered@,
                        bs == blocked@,
                        frets@[start as int] == Some(fret),
                        !covered@[start as int],
                        !blocked@[start as int],
                        best matches Some(b) ==> barre_recorded(fs, cs, bs, n as int, b),
                        forall|fret: u8, start: int, end: int|
                            #[trigger] barre_fits(fs, cs, bs, n as int, fret, start, end) && (exists|j: int|
                                0 <= j < u && #[trigger] unique@[j] == fret) ==> barre_beaten(
                                fs,
                                cs,
                                bs,
                                fret,
                                start,
                                end,
                                best,
                            ),
                        forall|s2: int, e2: int|
                            #[trigger] barre_fits(fs, cs, bs, n as int, fret, s2, e2) && (s2 < start || (s2 == start
                                && e2 < end)) ==> barre_beaten(fs, cs, bs, fret, s2, e2, best),
                    decreases n - end,
                {
                    let ghost old_best = best;
                    if frets[end] == Some(fret) && !covered[end] && !blocked[end] {
                        if let Some(bridged_mute) = barre_range(frets, fret, start, end) {
                            let mut exact_count: usize = 0;
                            let mut k: usize = start;
                            while k <= end
                                invariant
                                    start <= k <= end + 1,
                                    end < 8,
                                    exact_count <= k - start,
                                    fs == frets@,
                                    cs == covered@,
                                    bs == blocked@,
                                    exact_count == free_count(fs, cs, bs, fret, start as int, k as int),
                                decreases end + 1 - k,
                            {
                                if frets[k] == Some(fret) && !covered[k] && !blocked[k] {
                                    exact_count += 1;
                                }
                                k += 1;
                            }
                            proof {
                                lemma_free_count_ends(fs, cs, bs, fret, start as int, end as int);
                            }
                            if exact_count >= 2 {
                                let candidate = BarreCandidate {
                                    fret,
                                    start,
                                    end,
                                    saving: exact_count - 1,
                                    bridged_mute,
                                };
                                let better = match best {
                                    None => true,
                                    Some(current) => candidate.saving > current.saving || (
                                    candidate.saving == current.saving && candidate.end
                                        - candidate.start > current.end - current.start),
                                };
                                if better {
                                    best = Some(candidate);
                                }
                                proof {
                                    assert(barre_fits(fs, cs, bs, n as int, fret, start as int, end as int));
                                    assert forall|f2: u8, s2: int, e2: int|
                                        barre_beaten(fs, cs, bs, f2, s2, e2, old_best) implies barre_beaten(
                                        fs,
                                        cs,
                                        bs,
                                        f2,
                                        s2,
                                        e2,
                                        best,
                                    ) by {}
                                }
                            }
                        }
                    }
                    proof {
                        assert forall|s2: int, e2: int|
                            #[trigger] barre_fits(fs, cs, bs, n as int, fret, s2, e2) && (s2 < start || (s2 == start
                                && e2 < end + 1)) implies barre_beaten(fs, cs, bs, fret, s2, e2, best) by {
                            if s2 == start && e2 == end {
                            } else {
                                assert(barre_beaten(fs, cs, bs, fret, s2, e2, old_best));
                            }
                        }
                        assert forall|f2: u8, s2: int, e2: int|
                            #[trigger] barre_fits(fs, cs, bs, n as int, f2, s2, e2) && (exists|j: int|
                                0 <= j < u && #[trigger] unique@[j] == f2) implies barre_beaten(
                            fs,
                            cs,
                            bs,
                            f2,
                            s2,
                            e2,
                            best,
                        ) by {
                            assert(barre_beaten(fs, cs, bs, f2, s2, e2, old_best));
                        }
                    }
                    end += 1;
                }
            }
            proof {
                assert forall|s2: int, e2: int|
                    #[trigger] barre_fits(fs, cs, bs, n as int, fret, s2, e2) && s2 < start + 1 implies barre_beaten(
                    fs,
                    cs,
                    bs,
                    fret,
                    s2,
                    e2,
                    best,
                ) by {
                    if s2 == start {
                        assert(e2 < n);
                    }
                }
            }
            start += 1;
        }
        proof {
            assert forall|f2: u8, s2: int, e2: int|
                #[trigger] barre_fits(fs, cs, bs, n as int, f2, s2, e2) && (exists|j: int|
                    0 <= j < u + 1 && #[trigger] unique@[j] == f2) implies barre_beaten(fs, cs, bs, f2, s2, e2, best) by {
                let j = choose|j: int| 0 <= j < u + 1 && #[trigger] unique@[j] == f2;
                if j < u {
                } else {
                    assert(f2 == fret);
                }
            }
        }
        u += 1;
    }
    proof {
        assert forall|f2: u8, s2: int, e2: int|
            #[trigger] barre_fits(fs, cs, bs, n as int, f2, s2, e2) implies barre_beaten(fs, cs, bs, f2, s2, e2, best) by {
            assert(stopped_string(fs, s2));
            let j = choose|j: int| 0 <= j < unique_count && #[trigger] unique@[j] == fs[s2]->0;
        }
    }
    best
}

/// A barre over two free strings at its ends counts both.
proof fn lemma_free_count_ends(
    frets: Seq<Option<u8>>,
    covered: Seq<bool>,
    blocked: Seq<bool>,
    fret: u8,
    start: int,
    end: int,
)
    requires
        start < end,
        barre_free(frets, covered, blocked, fret, start),
        barre_free(frets, covered, blocked, fret, end),
    ensures
        free_count(frets, covered, blocked, fret, start, end + 1) >= 2,
{
    lemma_free_count_first(frets, covered, blocked, fret, start, end);
}

/// Counting free strings from a free first string.
proof fn lemma_free_count_first(
    frets: Seq<Option<u8>>,
    covered: Seq<bool>,
    blocked: Seq<bool>,
    fret: u8,
    start: int,
    hi: int,
)
    requires
        start < hi,
        barre_free(frets, covered, blocked, fret, start),
    ensures
        free_count(frets, covered, blocked, fret, start, hi) >= 1,
    decreases hi - start,
{
    if hi - 1 > start {
        lemma_free_count_first(frets, covered, blocked, fret, start, hi - 1);
    }
}

/// Number of the first `k` strings stopped above the nut.
pub open spec fn stopped_count(frets: Seq<Option<u8>>, k: int) -> nat
    decreases k,
{
    if k <= 0 {
        0
    } else {
        stopped_count(frets, k - 1) + if frets[k - 1] matches Some(f) && f > 0 {
            1nat
        } else {
            0nat
        }
    }
}

proof fn lemma_stopped_le(frets: Seq<Option<u8>>, k: int)
    requires
        k >= 0,
    ensures
        stopped_count(frets, k) <= k,
    decreases k,
{
    if k > 0 {
        lemma_stopped_le(frets, k - 1);
    }
}

/// Strings marked covered are stopped strings among the first `n`, so
/// there are no more of them than stopped strings.
proof fn lemma_covered_le(c: Seq<bool>, f: Seq<Option<u8>>, n: int, k: int)
    requires
        c.len() == 8,
        f.len() == 8,
        0 <= n <= 8,
        0 <= k <= 8,
        forall|i: int| 0 <= i < 8 && #[trigger] c[i] ==> i < n && (f[i] matches Some(v) && v > 0),
    ensures
        count_true(c.take(k)) <= stopped_count(f, if k < n {
            k
        } else {
            n
        }),
    decreases k,
{
    if k > 0 {
        lemma_covered_le(c, f, n, k - 1);
        assert(c.take(k).drop_last() == c.take(k - 1));
        if k > n {
            assert(!c[k - 1]);
        }
    }
}

/// Estimated fingers a fretting needs: stopped strings, with each barre
/// counting as one finger for the strings it covers.
pub fn estimated_finger_count(frets: &[Option<u8>; 8], n: usize) -> (count: usize)
    requires
        n <= 8,
    ensures
        count <= stopped_count(frets@, n as int),
        stopped_count(frets@, n as int) <= 1 ==> count == stopped_count(frets@, n as int),
        stopped_count(frets@, n as int) > 0 ==> count >= 1,
        count <= n,
        (forall|fret: u8, start: int, end: int|
            !#[trigger] barre_fits(frets@, none_marked(), none_marked(), n as int, fret, start, end)) ==> count
            == stopped_count(frets@, n as int),
{
    proof {
        lemma_stopped_le(frets@, n as int);
    }
    let ghost no_barre = forall|fret: u8, start: int, end: int|
        !#[trigger] barre_fits(frets@, none_marked(), none_marked(), n as int, fret, start, end);
    let mut fretted_count: usize = 0;
    let mut i: usize = 0;
    while i < n
        invariant
            0 <= i <= n <= 8,
            fretted_count == stopped_count(frets@, i as int),
            fretted_count <= i,
        decreases n - i,
    {
        if let Some(f) = frets[i] {
            if f > 0 {
                fretted_count += 1;
            }
        }
        i += 1;
    }
    if fretted_count <= 1 {
        return fretted_count;
    }
    let mut covered = [false; 8];
    let mut blocked = [false; 8];
    assert(covered@ =~= none_marked());
    assert(blocked@ =~= none_marked());
    let mut barre_count: usize = 0;
    assert(count_true(covered@) == 0) by {
        lemma_count_true_none(covered@);
    }
    // Each barre covers at least two strings not covered before, so at most
    // `n / 2` barres are found and the loop ends by finding none.
    let mut rounds: usize = 0;
    while rounds < n
        invariant
            0 <= rounds <= n <= 8,
            barre_count == rounds,
            covered@.len() == 8,
            forall|i: int| 0 <= i < 8 && #[trigger] covered@[i] ==> i < n && (frets@[i] matches Some(v) && v > 0),
            count_true(covered@) >= 2 * barre_count,
            barre_count == 0 ==> count_true(covered@) == 0,
            barre_count == 0 ==> covered@ == none_marked() && blocked@ == none_marked(),
            no_barre ==> barre_count == 0,
            no_barre == forall|fret: u8, start: int, end: int|
                !#[trigger] barre_fits(frets@, none_marked(), none_marked(), n as int, fret, start, end),
        ensures
            count_true(covered@) >= 2 * barre_count,
            barre_count == 0 ==> count_true(covered@) == 0,
            no_barre ==> barre_count == 0,
            forall|i: int| 0 <= i < 8 && #[trigger] covered@[i] ==> i < n && (frets@[i] matches Some(v) && v > 0),
        decreases n - rounds,
    {
        let barre = match best_barre(frets, &covered, &blocked, n) {
            Some(b) => b,
            None => {
                break;
            },
        };
        proof {
            if barre_count == 0 {
                assert(barre_fits(frets@, covered@, blocked@, n as int, barre.fret, barre.start as int, barre.end as int));
            }
        }
        barre_count += 1;
        let ghost base = count_true(covered@);
        let mut s: usize = barre.start;
        while s <= barre.end
            invariant
                barre.start <= s <= barre.end + 1,
                barre.start < barre.end < n <= 8,
                barre.fret > 0,
                covered@.len() == 8,
                frets@[barre.start as int] == Some(barre.fret),
                frets@[barre.end as int] == Some(barre.fret),
                s <= barre.end ==> !covered@[barre.end as int],
                s <= barre.start ==> !covered@[barre.start as int],
                count_true(covered@) >= base + (if s > barre.start { 1int } else { 0int }) + (if s
                    > barre.end { 1int } else { 0int }),
                forall|i: int| 0 <= i < 8 && #[trigger] covered@[i] ==> i < n && (frets@[i] matches Some(v) && v > 0),
            decreases barre.end + 1 - s,
        {
            if frets[s] == Some(barre.fret) {
                let ghost before = covered@;
                if !covered[s] {
                    proof {
                        lemma_count_true_set(before, s as int);
                    }
                }
                covered[s] = true;
                proof {
                    if before[s as int] {
                        assert(covered@ == before);
                    }
                }
            }
            s += 1;
        }
        if barre.bridged_mute {
            let mut s: usize = barre.start;
            while s <= barre.end
                invariant
                    barre.start <= s <= barre.end + 1,
                    barre.end < n <= 8,
                decreases barre.end + 1 - s,
            {
                blocked[s] = true;
                s += 1;
            }
        }
        rounds += 1;
    }
    proof {
        lemma_covered_le(covered@, frets@, n as int, 8);
        assert(covered@.take(8) == covered@);
    }
    let mut covered_count: usize = 0;
    let mut k: usize = 0;
    while k < 8
        invariant
            0 <= k <= 8,
            covered@.len() == 8,
            covered_count == count_true(covered@.take(k as int)),
            covered_count <= k,
        decreases 8 - k,
    {
        assert(covered@.take(k + 1).drop_last() == covered@.take(k as int));
        if covered[k] {
            covered_count += 1;
        }
        k += 1;
    }
    assert(covered@.take(8) == covered@);
    fretted_count - covered_count + barre_count
}

/// Cost of needing more than four fingers.
fn fingering_complexity_cost(frets: &[Option<u8>; 8], n: usize) -> (c: u32)
    requires
        n <= 8,
    ensures
        c <= 120,
        c % 30 == 0,
        c <= 30 * sat_sub(stopped_count(frets@, n as int) as int, 4),
        (forall|fret: u8, start: int, end: int|
            !#[trigger] barre_fits(frets@, none_marked(), none_marked(), n as int, fret, start, end)) ==> c == 30
            * sat_sub(stopped_count(frets@, n as int) as int, 4),
{
    let estimated = estimated_finger_count(frets, n);
    if estimated <= 4 {
        0
    } else {
        (estimated - 4) as u32 * 30
    }
}

/// Fewest strings a grip needs to count as full: four on six or more
/// strings, else all but one.
fn min_active_strings(n: usize) -> (m: usize)
    ensures
        m <= 4,
        m == min_active_of(n as int),
{
    if n >= 6 {
        4
    } else if n > 0 {
        n - 1
    } else {
        0
    }
}

/// Bonus for a full grip in open position.
fn open_position_bonus(profile: &FretProfile, n: usize) -> (b: u32)
    requires
        profile_wf(*profile, 8),
    ensures
        b <= 22,
        b == open_position_bonus_of(*profile, n as int),
{
    let max_fret: u8 = match profile.max_non_open {
        Some(m) => m,
        None => 0,
    };
    let min_active = min_active_strings(n);
    if profile.has_open && max_fret <= 3 && profile.active_count >= min_active {
        if profile.active_count == n {
            22
        } else if profile.active_count + 1 == n {
            10
        } else {
            4
        }
    } else {
        0
    }
}

/// Bonus for an open lowest string sounding the wanted bass.
fn open_root_bass_bonus(
    frets: &[Option<u8>; 8],
    tuning: &Tuning,
    expected_bass: Option<PitchClass>,
    n: usize,
) -> (b: u32)
    requires
        frets_ok(*frets, n as int),
        n == tuning.spec_string_count(),
    ensures
        b <= 18,
        b == match expected_bass {
            Some(e) => open_root_bass_bonus_of(*tuning, frets@, e.spec_value() as int, n as int),
            None => 0,
        },
{
    proof {
        reveal(open_root_bass_bonus_of);
    }
    let expected = match expected_bass {
        Some(p) => p,
        None => {
            return 0;
        },
    };
    let mut played_count: usize = 0;
    let mut max_fret: u8 = 0;
    let mut i: usize = 0;
    while i < n
        invariant
            0 <= i <= n <= 8,
            played_count <= i,
            played_count == sounding_count(frets@, i as int),
            forall|k: int| 0 <= k < i ==> (#[trigger] frets@[k] matches Some(v) ==> v <= max_fret),
            max_fret == 0 || exists|k: int| 0 <= k < i && #[trigger] frets@[k] == Some(max_fret),
        decreases n - i,
    {
        if let Some(v) = frets[i] {
            played_count += 1;
            if v > max_fret {
                max_fret = v;
            }
        }
        i += 1;
    }
    let (lowest_string, lowest_fret) = match lowest_played(frets, tuning, n) {
        Some(l) => l,
        None => {
            return 0;
        },
    };
    proof {
        if exists|s: int| #[trigger] lowest_first(*tuning, frets@, n as int, s) && frets@[s] == Some(0u8) {
            let s = choose|s: int| #[trigger] lowest_first(*tuning, frets@, n as int, s) && frets@[s] == Some(0u8);
            lemma_lowest_first_unique(*tuning, frets@, n as int, s, lowest_string as int);
        }
    }
    if lowest_fret != 0 {
        return 0;
    }
    if tuning.pitch_at(lowest_string, lowest_fret).value() != expected.value() {
        return 0;
    }
    if max_fret > 4 {
        proof {
            let k = choose|k: int| 0 <= k < n && #[trigger] frets@[k] == Some(max_fret);
        }
        return 0;
    }
    if n >= 6 {
        if played_count >= 5 {
            18
        } else if played_count == 4 {
            14
        } else {
            8
        }
    } else if played_count == n {
        18
    } else if played_count + 1 == n {
        14
    } else {
        8
    }
}

/// Bonus for open bass strings under a block of stopped strings from the
/// fifth fret up.
fn open_bass_grip_bonus(frets: &[Option<u8>; 8], has_open: bool, n: usize) -> (b: u32)
    requires
        n <= 8,
    ensures
        b <= 20,
        b == open_bass_grip_bonus_of(frets@, has_open, n as int),
{
    proof {
        reveal(open_bass_grip_bonus_of);
    }
    let mut first_fretted: Option<usize> = None;
    let mut last_fretted: Option<usize> = None;
    let mut fretted_count: usize = 0;
    let mut min_non_open: Option<u8> = None;
    let mut max_non_open: Option<u8> = None;
    let mut idx: usize = 0;
    while idx < n
        invariant
            0 <= idx <= n <= 8,
            fretted_count <= idx,
            fretted_count == stopped_frets(frets@, idx as int).len(),
            (fretted_count > 0) == (first_fretted is Some),
            first_fretted matches Some(f) ==> f < idx && stopped_string(frets@, f as int) && forall|k: int|
                0 <= k < f ==> !#[trigger] stopped_string(frets@, k),
            last_fretted matches Some(l) ==> l < idx && stopped_string(frets@, l as int) && forall|k: int|
                l < k < idx ==> !#[trigger] stopped_string(frets@, k),
            first_fretted is None ==> forall|k: int| 0 <= k < idx ==> !#[trigger] stopped_string(frets@, k),
            (first_fretted is Some) == (last_fretted is Some),
            first_fretted matches Some(f) ==> (last_fretted matches Some(l) ==> f <= l),
            (first_fretted is Some) == (min_non_open is Some),
            (min_non_open is Some) == (max_non_open is Some),
            min_non_open matches Some(a) ==> (max_non_open matches Some(b) ==> a <= b),
            !open_above_stopped(frets@, n as int, idx as int),
            min_non_open matches Some(m) ==> (forall|k: int|
                0 <= k < idx && #[trigger] stopped_string(frets@, k) ==> m <= frets@[k]->0) && exists|k: int|
                0 <= k < idx && #[trigger] stopped_string(frets@, k) && frets@[k]->0 == m,
            max_non_open matches Some(m) ==> (forall|k: int|
                0 <= k < idx && #[trigger] stopped_string(frets@, k) ==> frets@[k]->0 <= m) && exists|k: int|
                0 <= k < idx && #[trigger] stopped_string(frets@, k) && frets@[k]->0 == m,
        decreases n - idx,
    {
        proof {
            reveal(open_bass_grip_bonus_of);
        }
        let ghost fs = frets@;
        let ghost i = idx as int;
        match frets[idx] {
            Some(value) => {
                if value == 0 {
                    if first_fretted.is_some() {
                        proof {
                            let f = first_fretted->0 as int;
                            assert(stopped_string(fs, f) && fs[i] == Some(0u8));
                            assert(open_above_stopped(fs, n as int, n as int));
                        }
                        return 0;
                    }
                } else {
                    assert(stopped_string(fs, i));
                    if first_fretted.is_none() {
                        first_fretted = Some(idx);
                    }
                    last_fretted = Some(idx);
                    fretted_count += 1;
                    min_non_open = Some(
                        match min_non_open {
                            Some(c) => if value < c {
                                value
                            } else {
                                c
                            },
                            None => value,
                        },
                    );
                    max_non_open = Some(
                        match max_non_open {
                            Some(c) => if value > c {
                                value
                            } else {
                                c
                            },
                            None => value,
                        },
                    );
                }
            },
            None => {},
        }
        proof {
            assert(!open_above_stopped(fs, n as int, i + 1)) by {
                if open_above_stopped(fs, n as int, i + 1) {
                    let (a, b) = choose|a: int, b: int|
                        0 <= a < b < i + 1 && b < n && #[trigger] stopped_string(fs, a) && #[trigger] fs[b]
                            == Some(0u8);
                    assert(b < i);
                }
            }
        }
        idx += 1;
    }
    let (first, last, min, max) = match (first_fretted, last_fretted, min_non_open, max_non_open) {
        (Some(f), Some(l), Some(a), Some(b)) => (f, l, a, b),
        _ => {
            return 0;
        },
    };
    let mut all_sounding = true;
    let mut k: usize = first;
    while k <= last
        invariant
            first <= k <= last + 1,
            last < 8,
            all_sounding == forall|m: int| first <= m < k ==> #[trigger] frets@[m] is Some,
        decreases last + 1 - k,
    {
        if frets[k].is_none() {
            all_sounding = false;
        }
        k += 1;
    }
    proof {
        if all_sounding {
            assert forall|a: int, m: int, b: int|
                0 <= a < m < b < n && #[trigger] stopped_string(frets@, a) && #[trigger] stopped_string(frets@, b)
                    implies #[trigger] frets@[m] is Some by {
                assert(first <= a);
                assert(b <= last);
            }
        } else {
            let m = choose|m: int| first <= m < k && !(#[trigger] frets@[m] is Some);
            assert(stopped_string(frets@, first as int) && stopped_string(frets@, last as int));
            assert(!sounding_between_stopped(frets@, n as int));
        }
        let ka = choose|k: int| 0 <= k < n && #[trigger] stopped_string(frets@, k) && frets@[k]->0 == min;
        let kb = choose|k: int| 0 <= k < n && #[trigger] stopped_string(frets@, k) && frets@[k]->0 == max;
        assert(stopped_string(frets@, ka) && stopped_string(frets@, kb));
        if min >= 5 && max - min <= 4 {
            assert forall|a: int, b: int|
                0 <= a < n && 0 <= b < n && #[trigger] stopped_string(frets@, a) && #[trigger] stopped_string(
                    frets@,
                    b,
                ) implies frets@[a]->0 - frets@[b]->0 <= 4 by {
                assert(frets@[a]->0 <= max);
                assert(min <= frets@[b]->0);
            }
        }
    }
    if !has_open || !all_sounding || min < 5 {
        return 0;
    }
    if max - min > 4 {
        return 0;
    }
    if fretted_count + 1 >= n {
        20
    } else {
        10
    }
}

/// Number of stopped frets equal to the lowest one.
fn min_fret_count(profile: &FretProfile) -> (c: usize)
    requires
        profile_wf(*profile, 8),
    ensures
        c <= 8,
        c == min_fret_count_of(*profile),
{
    let min = match profile.min_non_open {
        Some(m) => m,
        None => {
            return 0;
        },
    };
    let mut c: usize = 0;
    let mut i: usize = 0;
    while i < profile.non_open_count
        invariant
            0 <= i <= profile.non_open_count <= 8,
            c <= i,
            profile.min_non_open == Some(min),
            c == count_equal(profile.non_open@.take(i as int), min),
        decreases profile.non_open_count - i,
    {
        assert(profile.non_open@.take(i + 1).drop_last() =~= profile.non_open@.take(i as int));
        if profile.non_open[i] == min {
            c += 1;
        }
        i += 1;
    }
    c
}

/// Bonus for a closed grip whose lowest fret is held by two or more strings.
fn closed_shape_bonus(profile: &FretProfile, n: usize) -> (b: u32)
    requires
        profile_wf(*profile, 8),
    ensures
        b <= 30,
        b == closed_shape_bonus_of(*profile, n as int),
{
    let min_active = min_active_strings(n);
    if profile.has_open || profile.active_count < min_active || profile.internal_mutes > 0 {
        return 0;
    }
    let (min, max) = match (profile.min_non_open, profile.max_non_open) {
        (Some(a), Some(b)) => (a, b),
        _ => {
            return 0;
        },
    };
    if min_fret_count(profile) < 2 {
        return 0;
    }
    if max - min <= 2 {
        let base: u32 = if min <= 2 {
            30
        } else if min <= 5 {
            6
        } else if min <= 8 {
            12
        } else {
            8
        };
        if profile.active_count == n {
            base
        } else {
            base / 2
        }
    } else {
        0
    }
}

/// Bonus for a full barre grip reaching the top string.
fn barre_grip_bonus(frets: &[Option<u8>; 8], profile: &FretProfile, n: usize) -> (b: u32)
    requires
        profile_wf(*profile, 8),
        n <= 8,
    ensures
        b <= 12,
        b == (if profile.has_open || profile.active_count != n || profile.internal_mutes > 0
            || profile.non_open_count == 0 || profile.max_non_open->0 - profile.min_non_open->0 > 4
            || min_fret_count_of(*profile) < 2 || n == 0 || frets@[n - 1] is None {
            0u32
        } else if profile.min_non_open->0 <= 5 {
            12
        } else if profile.min_non_open->0 <= 8 {
            4
        } else {
            2
        }),
{
    if profile.has_open || profile.active_count != n || profile.internal_mutes > 0 {
        return 0;
    }
    let span = match profile.fret_span() {
        Some(s) => s,
        None => {
            return 0;
        },
    };
    if span > 4 {
        return 0;
    }
    let min = match profile.min_non_open {
        Some(m) => m,
        None => {
            return 0;
        },
    };
    if min_fret_count(profile) < 2 {
        return 0;
    }
    if n == 0 || frets[n - 1].is_none() {
        return 0;
    }
    if min <= 5 {
        12
    } else if min <= 8 {
        4
    } else {
        2
    }
}

/// Bonus for a compact closed grip low on the neck.
fn compact_low_grip_bonus(profile: &FretProfile, n: usize) -> (b: u32)
    requires
        profile_wf(*profile, 8),
    ensures
        b <= 8,
        b == compact_low_grip_bonus_of(*profile, n as int),
{
    if profile.has_open || profile.active_count + 1 < n {
        return 0;
    }
    let span = match profile.fret_span() {
        Some(s) => s,
        None => {
            return 0;
        },
    };
    let min: u8 = match profile.min_non_open {
        Some(m) => m,
        None => 0,
    };
    if min <= 3 && span <= 2 {
        8
    } else {
        0
    }
}

/// Bonus for a closed three- or four-string shell of an extended chord.
fn jazz_shell_bonus(formula: &ChordFormula, profile: &FretProfile) -> (b: u32)
    requires
        profile_wf(*profile, 8),
    ensures
        b <= 14,
        b == jazz_shell_bonus_of(*profile, upper_tones(formula.tones@)),
{
    if !has_upper_structure(formula) {
        return 0;
    }
    if profile.has_open || !(3 <= profile.active_count && profile.active_count <= 4) {
        return 0;
    }
    let span = match profile.fret_span() {
        Some(s) => s,
        None => {
            return 0;
        },
    };
    if span > 4 {
        return 0;
    }
    let muted = profile.internal_mutes;
    if muted > 1 {
        return 0;
    }
    if profile.active_count == 4 {
        if muted == 1 {
            14
        } else {
            10
        }
    } else {
        6
    }
}

/// Every term of the score of a fretting, and their total.
#[verifier::rlimit(50)]
pub fn voicing_score_breakdown(
    frets: &[Option<u8>; 8],
    tuning: &Tuning,
    bass_rule: BassRule,
    formula: &ChordFormula,
    omissions: &Vec<InferredOmission>,
    n: usize,
    profile: &FretProfile,
) -> (b: VoicingScoreBreakdown)
    requires
        frets_ok(*frets, n as int),
        n == tuning.spec_string_count(),
        profile_wf(*profile, n as int),
        formula.wf(),
        omissions@.len() <= 3,
    ensures
        profile.active_count == 0 ==> b.total == u32::MAX,
        profile.active_count > 0 ==> b.total == breakdown_total(b),
        profile.active_count > 0 ==> profile_terms(b, *profile, n as int, upper_tones(formula.tones@)),
        breakdown_of(b, frets@, *tuning, bass_rule, formula.tones@, omissions@, n as int, *profile),
{
    if profile.active_count == 0 {
        proof {
            reveal(breakdown_of);
        }
        return VoicingScoreBreakdown {
            total: u32::MAX,
            position_cost: 0,
            relative_fret_cost: 0,
            fret_span_cost: 0,
            active_string_cost: 0,
            internal_mute_cost: 0,
            adjacent_fret_jump_cost: 0,
            duplicate_pitch_cost: 0,
            high_open_mix_cost: 0,
            low_open_gap_cost: 0,
            preferred_bass_mismatch_cost: 0,
            harmonic_defect_cost: 0,
            internal_mute_quality_cost: 0,
            trailing_mute_cost: 0,
            sparse_duplicate_pitch_cost: 0,
            open_chord_tone_bypass_cost: 0,
            low_added_ninth_cluster_cost: 0,
            fingering_complexity_cost: 0,
            instrument_cost: 0,
            open_position_bonus: 0,
            open_root_bass_bonus: 0,
            open_bass_grip_bonus: 0,
            closed_shape_bonus: 0,
            barre_grip_bonus: 0,
            compact_low_grip_bonus: 0,
            jazz_shell_bonus: 0,
            instrument_bonus: 0,
        };
    }
    let instrument = tuning.instrument();
    let preferred = bass_rule.preferred();
    let mut b = VoicingScoreBreakdown {
        total: 0,
        position_cost: position_cost(profile),
        relative_fret_cost: relative_fret_cost(profile),
        fret_span_cost: fret_span_cost(profile),
        active_string_cost: active_string_cost(profile.active_count, n),
        internal_mute_cost: internal_mute_cost(profile),
        adjacent_fret_jump_cost: adjacent_fret_jump_cost(frets, n),
        duplicate_pitch_cost: duplicate_pitch_cost(frets, tuning, n),
        high_open_mix_cost: high_open_mix_cost(frets, instrument, profile, n),
        low_open_gap_cost: low_open_gap_cost(frets, n),
        preferred_bass_mismatch_cost: preferred_bass_mismatch_cost(frets, tuning, preferred, n),
        harmonic_defect_cost: voicing_omission_cost(omissions, formula),
        internal_mute_quality_cost: internal_mute_quality_cost(profile, formula, instrument),
        trailing_mute_cost: trailing_mute_cost(formula, profile),
        sparse_duplicate_pitch_cost: sparse_duplicate_pitch_cost(frets, tuning, formula, profile, n),
        open_chord_tone_bypass_cost: open_chord_tone_bypass_cost(frets, tuning, formula, profile, n),
        low_added_ninth_cluster_cost: low_added_ninth_cluster_cost(frets, tuning, formula, n),
        fingering_complexity_cost: fingering_complexity_cost(frets, n),
        instrument_cost: instrument_voicing_cost(frets, instrument, profile, n),
        open_position_bonus: open_position_bonus(profile, n),
        open_root_bass_bonus: open_root_bass_bonus(frets, tuning, preferred, n),
        open_bass_grip_bonus: open_bass_grip_bonus(frets, profile.has_open, n),
        closed_shape_bonus: closed_shape_bonus(profile, n),
        barre_grip_bonus: barre_grip_bonus(frets, profile, n),
        compact_low_grip_bonus: compact_low_grip_bonus(profile, n),
        jazz_shell_bonus: jazz_shell_bonus(formula, profile),
        instrument_bonus: instrument_voicing_bonus(frets, instrument, formula, profile, n),
    };
    let mut score = b.position_cost + b.relative_fret_cost + b.fret_span_cost + b.active_string_cost
        + b.internal_mute_cost + b.adjacent_fret_jump_cost + b.duplicate_pitch_cost
        + b.high_open_mix_cost + b.low_open_gap_cost + b.preferred_bass_mismatch_cost;
    score = score.saturating_sub(b.open_position_bonus);
    score = score.saturating_sub(b.open_root_bass_bonus);
    score = score.saturating_sub(b.open_bass_grip_bonus);
    score = score.saturating_sub(b.closed_shape_bonus);
    score = score.saturating_sub(b.barre_grip_bonus);
    score = score.saturating_sub(b.compact_low_grip_bonus);
    score = score.saturating_sub(b.jazz_shell_bonus);
    let score = score + b.harmonic_defect_cost + b.internal_mute_quality_cost + b.trailing_mute_cost
        + b.sparse_duplicate_pitch_cost + b.open_chord_tone_bypass_cost
        + b.low_added_ninth_cluster_cost + b.fingering_complexity_cost + b.instrument_cost;
    b.total = score.saturating_sub(b.instrument_bonus);
    proof {
        assert(fret_terms(b, frets@, *tuning, bass_rule, formula.tones@, omissions@, n as int, *profile)) by {
            reveal(fret_terms);
        }
        reveal(breakdown_of);
    }
    b
}

/// The terms of a breakdown that the profile decides: the position cost,
/// the cost of frets above the lowest, the span, the unplayed strings, the
/// inner and trailing mutes, and the open, closed, compact and shell
/// bonuses.
/// The bass pitch a rule asks or prefers for.
pub open spec fn preferred_pitch(rule: BassRule) -> Option<PitchClass> {
    match rule {
        BassRule::Required(p) => Some(p),
        BassRule::Preferred(p) => Some(p),
        BassRule::Any => None,
    }
}

/// The terms of a breakdown that read the frets themselves, the tuning, the
/// bass rule, the chord's tones or the omissions.
#[verifier::opaque]
pub open spec fn fret_terms(
    b: VoicingScoreBreakdown,
    frets: Seq<Option<u8>>,
    t: Tuning,
    rule: BassRule,
    tones: Seq<ChordTone>,
    omissions: Seq<InferredOmission>,
    n: int,
    p: FretProfile,
) -> bool {
    let upper = upper_tones(tones);
    let instrument = t.spec_instrument();
    &&& b.adjacent_fret_jump_cost == jump_cost_of(stopped_frets(frets, n))
    &&& b.duplicate_pitch_cost == duplicate_cost_upto(t, frets, n, 12)
    &&& b.high_open_mix_cost == high_open_mix_cost_of(frets, instrument, p, n)
    &&& b.low_open_gap_cost == (if low_open_gap(frets, n) {
        18int
    } else {
        0
    })
    &&& b.preferred_bass_mismatch_cost == preferred_bass_mismatch_cost_of(t, frets, n, preferred_pitch(rule))
    &&& b.harmonic_defect_cost == omissions_cost_of(omissions, omissions.len() as int, upper)
    &&& b.internal_mute_quality_cost == internal_mute_quality_cost_of(p, upper, instrument)
    &&& b.sparse_duplicate_pitch_cost == sparse_duplicate_cost_of(t, frets, tones, p, n)
    &&& b.open_chord_tone_bypass_cost == (if !p.has_open || dense_open_bass_grip_of(frets, n)
        || compact_open_treble_grip_of(frets, p, n) {
        0
    } else {
        bypass_cost_upto(t, frets, tones, n)
    })
    &&& b.low_added_ninth_cluster_cost == (if low_ninth_cluster(t, frets, tones, n) {
        42int
    } else {
        0
    })
    &&& b.fingering_complexity_cost % 30 == 0
    &&& b.fingering_complexity_cost <= 30 * sat_sub(stopped_count(frets, n) as int, 4)
    &&& (forall|fret: u8, start: int, end: int| !#[trigger] barre_fits(frets, none_marked(), none_marked(), n, fret, start, end))
        ==> b.fingering_complexity_cost == 30 * sat_sub(stopped_count(frets, n) as int, 4)
    &&& b.instrument_cost == (if instrument == Instrument::Ukulele {
        ukulele_high_position_cost_of(p) + ukulele_treble_mute_cost_of(frets, p.active_count as int, n)
    } else {
        0
    })
    &&& b.instrument_bonus == (match instrument {
        Instrument::Guitar => guitar_open_position_bonus_of(p, n) + guitar_open_treble_extension_bonus_of(
            frets,
            tones,
            p,
            n,
        ),
        Instrument::Ukulele => ukulele_diagonal_bonus_of(p, n),
        _ => 0,
    })
    &&& b.open_root_bass_bonus == (match preferred_pitch(rule) {
        Some(e) => open_root_bass_bonus_of(t, frets, e.spec_value() as int, n),
        None => 0,
    })
    &&& b.open_bass_grip_bonus == open_bass_grip_bonus_of(frets, p.has_open, n)
    &&& b.barre_grip_bonus == (if p.has_open || p.active_count != n || p.internal_mutes > 0 || p.non_open_count == 0
        || p.max_non_open->0 - p.min_non_open->0 > 4 || min_fret_count_of(p) < 2 || n == 0 || frets[n - 1] is None {
        0u32
    } else if p.min_non_open->0 <= 5 {
        12
    } else if p.min_non_open->0 <= 8 {
        4
    } else {
        2
    })
}

/// `b` is the breakdown of `frets` with profile `p`: the maximum total
/// where no string sounds, else every term as its spec gives it and the
/// total combined from them.
#[verifier::opaque]
pub open spec fn breakdown_of(
    b: VoicingScoreBreakdown,
    frets: Seq<Option<u8>>,
    t: Tuning,
    rule: BassRule,
    tones: Seq<ChordTone>,
    omissions: Seq<InferredOmission>,
    n: int,
    p: FretProfile,
) -> bool {
    if p.active_count == 0 {
        b.total == u32::MAX
    } else {
        &&& b.total == breakdown_total(b)
        &&& profile_terms(b, p, n, upper_tones(tones))
        &&& fret_terms(b, frets, t, rule, tones, omissions, n, p)
    }
}

pub open spec fn profile_terms(b: VoicingScoreBreakdown, p: FretProfile, n: int, upper: bool) -> bool {
    &&& b.position_cost == (match p.min_non_open {
        Some(m) => m * (if p.has_open { 1int } else { 2 }),
        None => 0,
    })
    &&& b.relative_fret_cost == relative_fret_cost_of(p)
    &&& b.fret_span_cost == fret_span_cost_of(p)
    &&& b.active_string_cost == active_string_cost_of(p.active_count as int, n)
    &&& b.internal_mute_cost == internal_mute_cost_of(p)
    &&& b.trailing_mute_cost == (if p.trailing_mutes == 0 {
        0
    } else {
        trailing_mute_cost_of(p, upper)
    })
    &&& b.open_position_bonus == open_position_bonus_of(p, n)
    &&& b.closed_shape_bonus == closed_shape_bonus_of(p, n)
    &&& b.compact_low_grip_bonus == compact_low_grip_bonus_of(p, n)
    &&& b.jazz_shell_bonus == jazz_shell_bonus_of(p, upper)
}

/// The score of a fretting: the total of its breakdown.
pub fn voicing_score_with_profile(
    frets: &[Option<u8>; 8],
    tuning: &Tuning,
    bass_rule: BassRule,
    formula: &ChordFormula,
    omissions: &Vec<InferredOmission>,
    n: usize,
    profile: &FretProfile,
) -> (score: u32)
    requires
        frets_ok(*frets, n as int),
        n == tuning.spec_string_count(),
        profile_wf(*profile, n as int),
        formula.wf(),
        omissions@.len() <= 3,
    ensures
        profile.active_count == 0 ==> score == u32::MAX,
        exists|b: VoicingScoreBreakdown|
            #[trigger] breakdown_of(b, frets@, *tuning, bass_rule, formula.tones@, omissions@, n as int, *profile)
                && score == b.total,
{
    let b = voicing_score_breakdown(frets, tuning, bass_rule, formula, omissions, n, profile);
    b.total
}


/// Two candidates agree on frets, string count, omissions and score.
pub open spec fn same_candidate(a: VoicingCandidate, b: VoicingCandidate) -> bool {
    &&& a.frets == b.frets
    &&& a.string_count == b.string_count
    &&& a.omissions@ == b.omissions@
    &&& a.score == b.score
}

/// `c` agrees with some candidate of `input`.
pub open spec fn from_input(c: VoicingCandidate, input: Seq<VoicingCandidate>) -> bool {
    exists|j: int| 0 <= j < input.len() && same_candidate(c, #[trigger] input[j])
}

/// A copy of a candidate.
pub fn copy_candidate(c: &VoicingCandidate) -> (r: VoicingCandidate)
    ensures
        same_candidate(r, *c),
{
    let mut omissions: Vec<InferredOmission> = Vec::new();
    let mut i: usize = 0;
    while i < c.omissions.len()
        invariant
            0 <= i <= c.omissions@.len(),
            omissions@ == c.omissions@.take(i as int),
        decreases c.omissions@.len() - i,
    {
        omissions.push(c.omissions[i]);
        i += 1;
        assert(omissions@ =~= c.omissions@.take(i as int));
    }
    assert(c.omissions@.take(c.omissions@.len() as int) =~= c.omissions@);
    VoicingCandidate { frets: c.frets, string_count: c.string_count, omissions, score: c.score }
}

/// Position bucket of a fret: low, middle, high, upper.
fn position_bucket(fret: u8) -> (b: usize)
    ensures
        b < 4,
        b == position_bucket_of(fret as int),
{
    if fret <= 4 {
        0
    } else if fret <= 8 {
        1
    } else if fret <= 12 {
        2
    } else {
        3
    }
}

/// Number of position families: open position, then open-high and closed
/// grips in each of four buckets.
pub const POSITION_FAMILY_COUNT: usize = 9;

/// Number of voicing families: position, string band, density, inner mutes.
pub const VOICING_FAMILY_COUNT: usize = 270;

/// The family of a voicing, as indexes of its whole family and of its
/// position family; the ranker spreads picks across families.
fn voicing_family(n: usize, profile: &FretProfile) -> (r: (usize, usize))
    requires
        profile_wf(*profile, n as int),
    ensures
        r.0 < VOICING_FAMILY_COUNT,
        r.1 < POSITION_FAMILY_COUNT,
        r.0 == voicing_family_of(*profile, n as int),
        r.1 == position_family_of(*profile),
{
    let first: usize = match profile.first_played {
        Some(f) => f,
        None => 0,
    };
    let last: usize = match profile.last_played {
        Some(l) => l,
        None => 0,
    };
    let max_non_open: u8 = match profile.max_non_open {
        Some(m) => m,
        None => 0,
    };
    let min_non_open: u8 = match profile.min_non_open {
        Some(m) => m,
        None => 0,
    };
    let position: usize = if profile.has_open && max_non_open <= 4 {
        0
    } else if profile.has_open {
        1 + position_bucket(min_non_open)
    } else {
        5 + position_bucket(min_non_open)
    };
    let band: usize = if first == 0 && last + 1 == n {
        0
    } else if n >= 5 && first <= 1 && last + 2 >= n {
        1
    } else if last < n / 2 {
        2
    } else if first >= n / 2 {
        4
    } else {
        3
    };
    let density: usize = if profile.active_count == n {
        0
    } else if profile.active_count + 1 >= n && profile.active_count >= 3 {
        1
    } else {
        2
    };
    let mute: usize = if profile.internal_mutes > 0 {
        1
    } else {
        0
    };
    (((position * 5 + band) * 3 + density) * 2 + mute, position)
}

/// Tie-break by position: open grips near the nut first, then open grips
/// up to the fifth fret, then full closed grips low on the neck.
fn voicing_position_tie_break(n: usize, profile: &FretProfile) -> (t: u8)
    requires
        profile_wf(*profile, n as int),
    ensures
        t <= 3,
        t == position_tie_break_of(*profile, n as int),
{
    let max_fret: u8 = match profile.max_non_open {
        Some(m) => m,
        None => 0,
    };
    let min_non_open: u8 = match profile.min_non_open {
        Some(m) => m,
        None => 0,
    };
    if profile.has_open && max_fret <= 3 && profile.active_count + 1 >= n {
        0
    } else if profile.has_open && max_fret <= 5 {
        1
    } else if !profile.has_open && min_non_open <= 5 && profile.active_count == n {
        2
    } else {
        3
    }
}

/// Appends the compact text of a fretting as character codes: digits and
/// `x`, with `-` between strings when a fret needs two digits.
fn push_compact_codes(key: &mut Vec<i64>, frets: &[Option<u8>; 8], n: usize)
    requires
        frets_ok(*frets, n as int),
    ensures
        final(key)@.len() >= old(key)@.len(),
        final(key)@.subrange(0, old(key)@.len() as int) == old(key)@,
        final(key)@ == old(key)@ + compact_codes(frets@, n as int, needs_dashes(frets@, n as int)),
{
    let ghost start = key@;
    let mut dashed = false;
    let mut i: usize = 0;
    while i < n
        invariant
            0 <= i <= n <= 8,
            dashed == exists|j: int| 0 <= j < i && (#[trigger] frets@[j] matches Some(v) && v > 9),
        decreases n - i,
    {
        if let Some(v) = frets[i] {
            if v > 9 {
                dashed = true;
            }
        }
        i += 1;
    }
    let mut i: usize = 0;
    while i < n
        invariant
            0 <= i <= n <= 8,
            frets_ok(*frets, n as int),
            dashed == needs_dashes(frets@, n as int),
            key@ == start + compact_codes(frets@, i as int, dashed),
        decreases n - i,
    {
        let ghost before = key@;
        if dashed && i > 0 {
            key.push('-' as i64);
        }
        assert(fret_ok(frets@[i as int]));
        match frets[i] {
            Some(v) => {
                if v >= 10 {
                    key.push(('0' as u8 + v / 10) as i64);
                    key.push(('0' as u8 + v % 10) as i64);
                } else {
                    key.push(('0' as u8 + v) as i64);
                }
            },
            None => {
                key.push('x' as i64);
            },
        }
        proof {
            assert(key@ =~= before + ((if dashed && i > 0 {
                seq![45i64]
            } else {
                seq![]
            }) + fret_codes(frets@[i as int])));
            assert(start + compact_codes(frets@, i + 1, dashed) =~= start + compact_codes(
                frets@,
                i as int,
                dashed,
            ) + ((if dashed && i > 0 {
                seq![45i64]
            } else {
                seq![]
            }) + fret_codes(frets@[i as int])));
        }
        i += 1;
    }
}

/// A candidate with what the ranking reads: its family, its sort key
/// (score, position tie-break, more sounding strings first, compact text),
/// and whether it was picked.
struct RankedVoicingCandidate {
    candidate: VoicingCandidate,
    family: usize,
    position: usize,
    key: Vec<i64>,
}

fn ranked_candidate(candidate: VoicingCandidate) -> (r: RankedVoicingCandidate)
    requires
        frets_ok(candidate.frets, candidate.string_count as int),
    ensures
        same_candidate(r.candidate, candidate),
        r.family < VOICING_FAMILY_COUNT,
        r.position < POSITION_FAMILY_COUNT,
        r.key@.len() > 0,
        r.key@[0] == candidate.score,
{
    let n = candidate.string_count;
    let profile = fret_profile(&candidate.frets, n);
    let (family, position) = voicing_family(n, &profile);
    let tie_break = voicing_position_tie_break(n, &profile);
    let mut key: Vec<i64> = Vec::new();
    key.push(candidate.score as i64);
    key.push(tie_break as i64);
    key.push(-(profile.active_count as i64));
    let ghost head = key@;
    push_compact_codes(&mut key, &candidate.frets, n);
    assert(key@.subrange(0, head.len() as int)[0] == key@[0]);
    RankedVoicingCandidate { candidate, family, position, key }
}

/// `order` lists indexes of `keys` in nondecreasing key order.
pub open spec fn order_sorted(keys: Seq<Vec<i64>>, order: Seq<usize>) -> bool {
    forall|i: int, j: int|
        #![trigger order[i], order[j]]
        0 <= i < j < order.len() ==> lex_le(keys[order[i] as int]@, keys[order[j] as int]@)
}

/// The indexes `lo`, `lo + 1`, ..., `hi - 1`.
pub open spec fn index_range(lo: int, hi: int) -> Seq<usize> {
    Seq::new((hi - lo) as nat, |k: int| (lo + k) as usize)
}

/// Merges two key-sorted index lists into one.
fn merge_orders(keys: &Vec<Vec<i64>>, a: &Vec<usize>, b: &Vec<usize>) -> (r: Vec<usize>)
    requires
        order_sorted(keys@, a@),
        order_sorted(keys@, b@),
        forall|k: int| 0 <= k < a@.len() ==> #[trigger] a@[k] < keys@.len(),
        forall|k: int| 0 <= k < b@.len() ==> #[trigger] b@[k] < keys@.len(),
    ensures
        order_sorted(keys@, r@),
        r@.to_multiset() == a@.to_multiset().add(b@.to_multiset()),
        r@.len() == a@.len() + b@.len(),
        forall|k: int| 0 <= k < r@.len() ==> #[trigger] r@[k] < keys@.len(),
{
    let mut r: Vec<usize> = Vec::new();
    let mut i: usize = 0;
    let mut j: usize = 0;
    proof {
        broadcast use vstd::multiset::group_multiset_axioms, vstd::seq_lib::group_to_multiset_ensures;

        assert(a@.take(0) == Seq::<usize>::empty());
        assert(b@.take(0) == Seq::<usize>::empty());
        assert(Seq::<usize>::empty().to_multiset() =~= vstd::multiset::Multiset::<usize>::empty());
        assert(r@.to_multiset() =~= a@.take(0).to_multiset().add(b@.take(0).to_multiset()));
    }
    while i < a.len() || j < b.len()
        invariant
            0 <= i <= a@.len(),
            0 <= j <= b@.len(),
            r@.len() == i + j,
            order_sorted(keys@, a@),
            order_sorted(keys@, b@),
            forall|k: int| 0 <= k < a@.len() ==> #[trigger] a@[k] < keys@.len(),
            forall|k: int| 0 <= k < b@.len() ==> #[trigger] b@[k] < keys@.len(),
            forall|k: int| 0 <= k < r@.len() ==> #[trigger] r@[k] < keys@.len(),
            order_sorted(keys@, r@),
            r@.to_multiset() == a@.take(i as int).to_multiset().add(b@.take(j as int).to_multiset()),
            r@.len() > 0 && i < a@.len() ==> lex_le(
                keys@[r@.last() as int]@,
                keys@[a@[i as int] as int]@,
            ),
            r@.len() > 0 && j < b@.len() ==> lex_le(
                keys@[r@.last() as int]@,
                keys@[b@[j as int] as int]@,
            ),
        decreases a@.len() + b@.len() - i - j,
    {
        let take_a = if j >= b.len() {
            true
        } else if i >= a.len() {
            false
        } else {
            let c = compare_keys(&keys[a[i]], &keys[b[j]]);
            proof {
                if c > 0 {
                    assert(lex_le(keys@[b@[j as int] as int]@, keys@[a@[i as int] as int]@));
                }
            }
            c <= 0
        };
        let ghost before = r@;
        let x = if take_a {
            a[i]
        } else {
            b[j]
        };
        r.push(x);
        proof {
            assert forall|p: int, q: int|
                #![trigger r@[p], r@[q]]
                0 <= p < q < r@.len() implies lex_le(keys@[r@[p] as int]@, keys@[r@[q] as int]@) by {
                if q == r@.len() - 1 && p < q {
                    assert(r@[p] == before[p]);
                    if p < before.len() - 1 {
                        assert(lex_le(keys@[before[p] as int]@, keys@[before.last() as int]@));
                        lemma_lex_le_transitive(
                            keys@[before[p] as int]@,
                            keys@[before.last() as int]@,
                            keys@[x as int]@,
                        );
                    }
                } else {
                    assert(r@[p] == before[p] && r@[q] == before[q]);
                }
            }
        }
        if take_a {
            proof {
                broadcast use vstd::multiset::group_multiset_axioms, vstd::seq_lib::group_to_multiset_ensures;

                assert(a@.take(i + 1) == a@.take(i as int).push(a@[i as int]));
                assert(r@.to_multiset() =~= a@.take(i + 1).to_multiset().add(
                    b@.take(j as int).to_multiset(),
                ));
                if i + 1 < a@.len() {
                    assert(lex_le(keys@[a@[i as int] as int]@, keys@[a@[i + 1] as int]@));
                }
            }
            i += 1;
        } else {
            proof {
                broadcast use vstd::multiset::group_multiset_axioms, vstd::seq_lib::group_to_multiset_ensures;

                assert(b@.take(j + 1) == b@.take(j as int).push(b@[j as int]));
                assert(r@.to_multiset() =~= a@.take(i as int).to_multiset().add(
                    b@.take(j + 1).to_multiset(),
                ));
                if j + 1 < b@.len() {
                    assert(lex_le(keys@[b@[j as int] as int]@, keys@[b@[j + 1] as int]@));
                }
            }
            j += 1;
        }
    }
    assert(a@.take(a@.len() as int) == a@);
    assert(b@.take(b@.len() as int) == b@);
    r
}

/// The indexes `lo..hi` of `keys` in nondecreasing key order: a merge sort.
fn sort_range(keys: &Vec<Vec<i64>>, lo: usize, hi: usize) -> (order: Vec<usize>)
    requires
        lo <= hi <= keys@.len(),
    ensures
        order_sorted(keys@, order@),
        order@.to_multiset() == index_range(lo as int, hi as int).to_multiset(),
        order@.len() == hi - lo,
        forall|k: int| 0 <= k < order@.len() ==> lo <= #[trigger] order@[k] < hi,
    decreases hi - lo,
{
    if hi - lo <= 1 {
        let mut v: Vec<usize> = Vec::new();
        if lo < hi {
            v.push(lo);
        }
        assert(v@ == index_range(lo as int, hi as int));
        return v;
    }
    let mid = lo + (hi - lo) / 2;
    let left = sort_range(keys, lo, mid);
    let right = sort_range(keys, mid, hi);
    let order = merge_orders(keys, &left, &right);
    proof {
        let whole = index_range(lo as int, hi as int);
        assert(whole == index_range(lo as int, mid as int) + index_range(mid as int, hi as int));
        vstd::seq_lib::lemma_multiset_commutative(
            index_range(lo as int, mid as int),
            index_range(mid as int, hi as int),
        );
        assert forall|k: int| 0 <= k < order@.len() implies lo <= #[trigger] order@[k] < hi by {
            let x = order@[k];
            assert(order@.contains(x));
            vstd::seq_lib::to_multiset_contains(order@, x);
            vstd::seq_lib::to_multiset_contains(whole, x);
            let m = choose|m: int| 0 <= m < whole.len() && whole[m] == x;
        }
    }
    order
}

/// Indexes of `keys` in nondecreasing key order, each index once.
fn sort_order(keys: &Vec<Vec<i64>>) -> (order: Vec<usize>)
    ensures
        order@.len() == keys@.len(),
        forall|k: int| 0 <= k < order@.len() ==> #[trigger] order@[k] < keys@.len(),
        order_sorted(keys@, order@),
        order@.to_multiset() == index_range(0, keys@.len() as int).to_multiset(),
{
    sort_range(keys, 0, keys.len())
}

/// Candidates in plain ranking order.
fn rank_all_voicing_candidates(candidates: Vec<VoicingCandidate>) -> (r: Vec<VoicingCandidate>)
    requires
        forall|i: int| 0 <= i < candidates@.len() ==> frets_ok(#[trigger] candidates@[i].frets, candidates@[i].string_count as int),
    ensures
        r@.len() == candidates@.len(),
        forall|k: int| 0 <= k < r@.len() ==> from_input(#[trigger] r@[k], candidates@),
        scores_ascending(r@),
        exists|order: Seq<usize>| #[trigger] reorders(r@, candidates@, order),
{
    let ghost input = candidates@;
    let ranked = ranked_list(candidates);
    let keys = ranked_keys(&ranked);
    let order = sort_order(&keys);
    let mut out: Vec<VoicingCandidate> = Vec::new();
    let mut k: usize = 0;
    while k < order.len()
        invariant
            0 <= k <= order@.len(),
            order@.len() == ranked@.len(),
            ranked@.len() == input.len(),
            keys@.len() == ranked@.len(),
            forall|k: int| 0 <= k < order@.len() ==> #[trigger] order@[k] < ranked@.len(),
            forall|i: int| 0 <= i < ranked@.len() ==> same_candidate(#[trigger] ranked@[i].candidate, input[i]),
            forall|i: int| 0 <= i < ranked@.len() ==> (#[trigger] ranked@[i]).key@.len() > 0
                && ranked@[i].key@[0] == ranked@[i].candidate.score,
            forall|i: int| 0 <= i < keys@.len() ==> (#[trigger] keys@[i])@ == ranked@[i].key@,
            order_sorted(keys@, order@),
            out@.len() == k,
            forall|m: int| 0 <= m < out@.len() ==> from_input(#[trigger] out@[m], input),
            forall|m: int| 0 <= m < out@.len() ==> same_candidate(#[trigger] out@[m], input[order@[m] as int]),
            scores_ascending(out@),
        decreases order@.len() - k,
    {
        let idx = order[k];
        let c = copy_candidate(&ranked[idx].candidate);
        assert(same_candidate(c, input[idx as int]));
        let ghost before = out@;
        out.push(c);
        proof {
            assert forall|m: int| 0 <= m < out@.len() implies from_input(#[trigger] out@[m], input)
                && same_candidate(out@[m], input[order@[m] as int]) by {
                if m == k as int {
                    assert(same_candidate(out@[m], input[idx as int]));
                } else {
                    assert(out@[m] == before[m]);
                }
            }
            assert forall|p: int, q: int| 0 <= p < q < out@.len() implies #[trigger] out@[p].score
                <= #[trigger] out@[q].score by {
                if q == k as int {
                    assert(out@[p] == before[p]);
                    let ip = order@[p] as int;
                    assert(lex_le(keys@[ip]@, keys@[idx as int]@));
                    lemma_lex_le_first(keys@[ip]@, keys@[idx as int]@);
                    assert(same_candidate(before[p], input[ip]));
                    assert(same_candidate(ranked@[ip].candidate, input[ip]));
                } else {
                    assert(out@[p] == before[p] && out@[q] == before[q]);
                }
            }
        }
        k += 1;
    }
    assert(reorders(out@, input, order@));
    out
}

/// Each candidate with its family and key.
fn ranked_list(candidates: Vec<VoicingCandidate>) -> (r: Vec<RankedVoicingCandidate>)
    requires
        forall|i: int| 0 <= i < candidates@.len() ==> frets_ok(#[trigger] candidates@[i].frets, candidates@[i].string_count as int),
    ensures
        r@.len() == candidates@.len(),
        forall|i: int| 0 <= i < r@.len() ==> same_candidate(#[trigger] r@[i].candidate, candidates@[i]),
        forall|i: int| 0 <= i < r@.len() ==> (#[trigger] r@[i]).family < VOICING_FAMILY_COUNT && r@[i].position
            < POSITION_FAMILY_COUNT && r@[i].key@.len() > 0 && r@[i].key@[0] == r@[i].candidate.score,
{
    let mut r: Vec<RankedVoicingCandidate> = Vec::new();
    let mut i: usize = 0;
    while i < candidates.len()
        invariant
            0 <= i <= candidates@.len(),
            r@.len() == i,
            forall|i: int| 0 <= i < candidates@.len() ==> frets_ok(#[trigger] candidates@[i].frets, candidates@[i].string_count as int),
            forall|j: int| 0 <= j < r@.len() ==> same_candidate(#[trigger] r@[j].candidate, candidates@[j]),
            forall|j: int| 0 <= j < r@.len() ==> (#[trigger] r@[j]).family < VOICING_FAMILY_COUNT && r@[j].position
                < POSITION_FAMILY_COUNT && r@[j].key@.len() > 0 && r@[j].key@[0] == r@[j].candidate.score,
        decreases candidates@.len() - i,
    {
        let c = copy_candidate(&candidates[i]);
        r.push(ranked_candidate(c));
        i += 1;
    }
    r
}

/// The sort keys of a ranked list.
fn ranked_keys(ranked: &Vec<RankedVoicingCandidate>) -> (keys: Vec<Vec<i64>>)
    ensures
        keys@.len() == ranked@.len(),
        forall|i: int| 0 <= i < keys@.len() ==> (#[trigger] keys@[i])@ == ranked@[i].key@,
{
    let mut keys: Vec<Vec<i64>> = Vec::new();
    let mut i: usize = 0;
    while i < ranked.len()
        invariant
            0 <= i <= ranked@.len(),
            keys@.len() == i,
            forall|j: int| 0 <= j < keys@.len() ==> (#[trigger] keys@[j])@ == ranked@[j].key@,
        decreases ranked@.len() - i,
    {
        let key = ranked[i].key.clone();
        assert(key@ =~= ranked@[i as int].key@);
        keys.push(key);
        i += 1;
    }
    keys
}

/// The first entry of a key decides before the rest.
proof fn lemma_lex_le_first(a: Seq<i64>, b: Seq<i64>)
    requires
        lex_le(a, b),
        a.len() > 0,
        b.len() > 0,
    ensures
        a[0] <= b[0],
{
    if lex_lt(a, b) {
        let k = choose|k: int|
            0 <= k <= a.len() && k <= b.len() && #[trigger] prefix_eq(a, b, k) && ((k < a.len() && k
                < b.len() && a[k] < b[k]) || (k == a.len() && k < b.len()));
        if k > 0 {
            assert(a[0] == b[0]);
        }
    }
}

/// `out` lists the candidates of `input` in the order `order`, which is a
/// permutation of the indexes of `input`.
pub open spec fn reorders(
    out: Seq<VoicingCandidate>,
    input: Seq<VoicingCandidate>,
    order: Seq<usize>,
) -> bool {
    &&& order.to_multiset() == index_range(0, input.len() as int).to_multiset()
    &&& order.len() == out.len()
    &&& forall|k: int|
        0 <= k < out.len() ==> order[k] < input.len() && same_candidate(
            #[trigger] out[k],
            input[order[k] as int],
        )
}

/// Scores never fall from one candidate to the next.
pub open spec fn scores_ascending(v: Seq<VoicingCandidate>) -> bool {
    forall|i: int, j: int| 0 <= i < j < v.len() ==> #[trigger] v[i].score <= #[trigger] v[j].score
}

/// Some candidate of `out` agrees with `c`.
pub open spec fn listed(out: Seq<VoicingCandidate>, c: VoicingCandidate) -> bool {
    exists|m: int| 0 <= m < out.len() && same_candidate(#[trigger] out[m], c)
}

/// Every candidate of `input` left out of `out` scores at most the widest
/// diversity window below each candidate of `out`.
pub open spec fn kept_near_passed_over(out: Seq<VoicingCandidate>, input: Seq<VoicingCandidate>) -> bool {
    forall|x: int, k: int|
        0 <= x < input.len() && 0 <= k < out.len() && !listed(out, input[x]) ==> #[trigger] out[k].score
            <= #[trigger] input[x].score + MAX_DIVERSITY_SCORE_WINDOW
}

/// How far above the best remaining score the ranker looks for variety.
pub fn diversity_score_window(best_score: u32) -> (w: u32)
    ensures
        w <= MAX_DIVERSITY_SCORE_WINDOW,
        w == (if best_score <= 5 {
            12u32
        } else if best_score <= 20 {
            10
        } else {
            8
        }),
{
    if best_score <= 5 {
        12
    } else if best_score <= 20 {
        10
    } else {
        8
    }
}

/// `out` takes its items from `input`, each as item `idx[m]`, no item twice.
pub open spec fn picks_once(out: Seq<VoicingCandidate>, input: Seq<VoicingCandidate>, idx: Seq<int>) -> bool {
    &&& idx.len() == out.len()
    &&& forall|m: int| 0 <= m < out.len() ==> 0 <= #[trigger] idx[m] < input.len() && same_candidate(out[m], input[idx[m]])
    &&& forall|m1: int, m2: int|
        0 <= m1 < out.len() && 0 <= m2 < out.len() && m1 != m2 ==> #[trigger] idx[m1] != #[trigger] idx[m2]
}

/// Picks up to `limit` candidates: each pick is the best effective score
/// among unpicked candidates within a window of the best remaining raw
/// score, where a candidate's effective score grows with picks already made
/// from its family and position; the picks come out in ranking order.
pub fn rank_diverse_voicing_candidates(candidates: Vec<VoicingCandidate>, limit: usize) -> (r: Vec<
    VoicingCandidate,
>)
    requires
        forall|i: int| 0 <= i < candidates@.len() ==> frets_ok(#[trigger] candidates@[i].frets, candidates@[i].string_count as int),
    ensures
        r@.len() == if limit < candidates@.len() {
            limit as int
        } else {
            candidates@.len() as int
        },
        forall|k: int| 0 <= k < r@.len() ==> from_input(#[trigger] r@[k], candidates@),
        scores_ascending(r@),
        kept_near_passed_over(r@, candidates@),
        exists|idx: Seq<int>| #[trigger] picks_once(r@, candidates@, idx),
        r@.len() > 0 ==> forall|x: int| 0 <= x < candidates@.len() ==> r@[0].score <= #[trigger] candidates@[x].score,
{
    if limit == 0 {
        let r: Vec<VoicingCandidate> = Vec::new();
        assert(picks_once(r@, candidates@, Seq::<int>::empty()));
        return r;
    }
    let ghost input = candidates@;
    let ranked = ranked_list(candidates);
    let keys = ranked_keys(&ranked);
    let order = sort_order(&keys);
    let n = order.len();
    let mut selected: Vec<bool> = Vec::new();
    let mut i: usize = 0;
    while i < n
        invariant
            0 <= i <= n,
            selected@.len() == i,
            count_true(selected@) == 0,
            forall|k: int| 0 <= k < i ==> !#[trigger] selected@[k],
        decreases n - i,
    {
        let ghost before = selected@;
        selected.push(false);
        assert(selected@.drop_last() =~= before);
        i += 1;
    }
    let mut family_counts: Vec<u64> = Vec::new();
    let mut i: usize = 0;
    while i < VOICING_FAMILY_COUNT
        invariant
            0 <= i <= VOICING_FAMILY_COUNT,
            family_counts@.len() == i,
            forall|k: int| 0 <= k < i ==> #[trigger] family_counts@[k] == 0,
        decreases VOICING_FAMILY_COUNT - i,
    {
        family_counts.push(0);
        i += 1;
    }
    let mut position_counts: Vec<u64> = Vec::new();
    let mut i: usize = 0;
    while i < POSITION_FAMILY_COUNT
        invariant
            0 <= i <= POSITION_FAMILY_COUNT,
            position_counts@.len() == i,
            forall|k: int| 0 <= k < i ==> #[trigger] position_counts@[k] == 0,
        decreases POSITION_FAMILY_COUNT - i,
    {
        position_counts.push(0);
        i += 1;
    }
    let mut selected_count: usize = 0;
    let mut first_unselected: usize = 0;
    while selected_count < limit && first_unselected < n
        invariant
            n == order@.len(),
            order@.len() == ranked@.len(),
            ranked@.len() == input.len(),
            selected@.len() == n,
            family_counts@.len() == VOICING_FAMILY_COUNT,
            position_counts@.len() == POSITION_FAMILY_COUNT,
            forall|k: int| 0 <= k < VOICING_FAMILY_COUNT ==> #[trigger] family_counts@[k] <= selected_count,
            forall|k: int| 0 <= k < POSITION_FAMILY_COUNT ==> #[trigger] position_counts@[k] <= selected_count,
            forall|k: int| 0 <= k < order@.len() ==> #[trigger] order@[k] < ranked@.len(),
            forall|i: int| 0 <= i < ranked@.len() ==> (#[trigger] ranked@[i]).family < VOICING_FAMILY_COUNT
                && ranked@[i].position < POSITION_FAMILY_COUNT && ranked@[i].key@.len() > 0,
            selected_count <= limit,
            selected_count <= n,
            first_unselected <= n,
            selected_count == count_true(selected@),
            forall|k: int| 0 <= k < first_unselected ==> #[trigger] selected@[k],
            first_unselected < n ==> !selected@[first_unselected as int],
            keys@.len() == ranked@.len(),
            forall|i: int| 0 <= i < ranked@.len() ==> (#[trigger] ranked@[i]).key@.len() > 0
                && ranked@[i].key@[0] == ranked@[i].candidate.score,
            forall|i: int| 0 <= i < keys@.len() ==> (#[trigger] keys@[i])@ == ranked@[i].key@,
            order_sorted(keys@, order@),
            near_selection(selected@, ranked@, order@),
            selected_count == 0 ==> first_unselected == 0,
            selected_count == 0 ==> forall|k: int| 0 <= k < VOICING_FAMILY_COUNT ==> #[trigger] family_counts@[k] == 0,
            selected_count == 0 ==> forall|k: int| 0 <= k < POSITION_FAMILY_COUNT ==> #[trigger] position_counts@[k] == 0,
            selected_count > 0 ==> first_unselected > 0,
        ensures
            selected_count > 0 ==> first_unselected > 0,
            selected_count == limit || first_unselected == n,
            selected_count == count_true(selected@),
            selected_count <= limit,
            selected_count <= n,
            selected@.len() == n,
            forall|k: int| 0 <= k < first_unselected ==> #[trigger] selected@[k],
            near_selection(selected@, ranked@, order@),
        decreases n - selected_count,
    {
        let best_raw_score = ranked[order[first_unselected]].candidate.score;
        let ceiling = best_raw_score.saturating_add(diversity_score_window(best_raw_score));
        let mut best: Option<(usize, u64)> = None;
        let mut k: usize = first_unselected;
        while k < n
            invariant
                first_unselected <= k <= n,
                n == order@.len(),
                order@.len() == ranked@.len(),
                selected@.len() == n,
                family_counts@.len() == VOICING_FAMILY_COUNT,
                position_counts@.len() == POSITION_FAMILY_COUNT,
                forall|k: int| 0 <= k < VOICING_FAMILY_COUNT ==> #[trigger] family_counts@[k] <= selected_count,
                forall|k: int| 0 <= k < POSITION_FAMILY_COUNT ==> #[trigger] position_counts@[k] <= selected_count,
                forall|k: int| 0 <= k < order@.len() ==> #[trigger] order@[k] < ranked@.len(),
                forall|i: int| 0 <= i < ranked@.len() ==> (#[trigger] ranked@[i]).family < VOICING_FAMILY_COUNT
                    && ranked@[i].position < POSITION_FAMILY_COUNT && ranked@[i].key@.len() > 0,
                selected_count <= n,
                first_unselected < n,
                best_raw_score <= ceiling,
                best_raw_score == ranked@[order@[first_unselected as int] as int].candidate.score,
                !selected@[first_unselected as int],
                best matches Some((b, _)) ==> first_unselected <= b < n && !selected@[b as int],
                best matches Some((b, _)) ==> ranked@[order@[b as int] as int].candidate.score <= ceiling,
                k > first_unselected ==> best is Some,
                k == first_unselected ==> best is None,
                selected_count == 0 ==> first_unselected == 0,
                selected_count == 0 ==> forall|k: int| 0 <= k < VOICING_FAMILY_COUNT ==> #[trigger] family_counts@[k] == 0,
                selected_count == 0 ==> forall|k: int| 0 <= k < POSITION_FAMILY_COUNT ==> #[trigger] position_counts@[k] == 0,
                selected_count == 0 && k > 0 ==> best == Some((0usize, ranked@[order@[0] as int].candidate.score as u64)),
                keys@.len() == ranked@.len(),
                forall|i: int| 0 <= i < ranked@.len() ==> (#[trigger] ranked@[i]).key@.len() > 0
                    && ranked@[i].key@[0] == ranked@[i].candidate.score,
                forall|i: int| 0 <= i < keys@.len() ==> (#[trigger] keys@[i])@ == ranked@[i].key@,
                order_sorted(keys@, order@),
            ensures
                best is Some,
                selected_count == 0 ==> best == Some((0usize, ranked@[order@[0] as int].candidate.score as u64)),
            decreases n - k,
        {
            let c = &ranked[order[k]];
            if c.candidate.score > ceiling {
                break;
            }
            if !selected[k] {
                let family_cost: u64 = match family_counts[c.family].checked_mul(5) {
                    Some(v) => v,
                    None => u64::MAX,
                };
                let effective = (c.candidate.score as u64).saturating_add(family_cost).saturating_add(
                    position_counts[c.position],
                );
                proof {
                    if selected_count == 0 {
                        assert(family_counts@[c.family as int] == 0);
                        assert(position_counts@[c.position as int] == 0);
                        assert(family_cost == 0);
                        assert(effective == c.candidate.score as u64);
                    }
                }
                let better = match best {
                    None => true,
                    Some((b, b_effective)) => {
                        let other = &ranked[order[b]];
                        if effective != b_effective {
                            effective < b_effective
                        } else if c.candidate.score != other.candidate.score {
                            c.candidate.score < other.candidate.score
                        } else {
                            compare_keys(&c.key, &other.key) < 0
                        }
                    },
                };
                proof {
                    if selected_count == 0 && k > 0 {
                        let i0 = order@[0] as int;
                        let ik = order@[k as int] as int;
                        assert(lex_le(keys@[i0]@, keys@[ik]@));
                        lemma_lex_le_first(keys@[i0]@, keys@[ik]@);
                        assert(effective == c.candidate.score as u64);
                        if effective == ranked@[i0].candidate.score as u64 && c.candidate.score
                            == ranked@[i0].candidate.score {
                            if lex_lt(c.key@, ranked@[i0].key@) {
                                if ranked@[i0].key@ == c.key@ {
                                    crate::identify::lemma_lex_lt_irreflexive(c.key@);
                                } else {
                                    crate::identify::lemma_lex_lt_transitive(c.key@, ranked@[i0].key@, c.key@);
                                    crate::identify::lemma_lex_lt_irreflexive(c.key@);
                                }
                            }
                        }
                    }
                }
                assert(selected_count == 0 && k > 0 ==> !better);
                assert(selected_count == 0 && k == 0 ==> better && effective == ranked@[order@[0] as int].candidate.score as u64);
                if better {
                    best = Some((k, effective));
                }
            }
            k += 1;
        }
        let chosen = match best {
            Some((b, _)) => b,
            None => {
                break;
            },
        };
        proof {
            lemma_count_true_set(selected@, chosen as int);
        }
        let ghost before_pick = selected@;
        selected.set(chosen, true);
        assert(forall|k: int| 0 <= k < first_unselected ==> #[trigger] selected@[k]);
        proof {
            lemma_pick_near(before_pick, selected@, ranked@, order@, keys@, first_unselected as int, chosen as int);
        }
        proof {
            lemma_count_true_le(selected@);
        }
        let family = ranked[order[chosen]].family;
        let position = ranked[order[chosen]].position;
        family_counts.set(family, family_counts[family] + 1);
        position_counts.set(position, position_counts[position] + 1);
        selected_count += 1;
        proof {
            if first_unselected == 0 {
                assert(chosen == 0);
                assert(selected@[0]);
            }
        }
        while first_unselected < n && selected[first_unselected]
            invariant
                first_unselected <= n,
                selected@.len() == n,
                first_unselected == 0 ==> selected@[0],
                forall|k: int| 0 <= k < first_unselected ==> #[trigger] selected@[k],
            decreases n - first_unselected,
        {
            first_unselected += 1;
        }
    }
    proof {
        if selected_count < limit {
            assert(first_unselected == n);
            lemma_count_true_all(selected@);
        }
    }
    let mut out: Vec<VoicingCandidate> = Vec::new();
    let ghost mut src: Seq<int> = Seq::empty();
    let ghost mut dst: Seq<int> = Seq::empty();
    let ghost mut idxs: Seq<int> = Seq::empty();
    let mut k: usize = 0;
    while k < n
        invariant
            order@.to_multiset() == index_range(0, keys@.len() as int).to_multiset(),
            n > 0 && selected@[0] && k > 0 ==> out@.len() > 0 && out@[0].score == ranked@[order@[0] as int].candidate.score,
            idxs.len() == out@.len(),
            forall|m: int| 0 <= m < out@.len() ==> #[trigger] idxs[m] == order@[src[m]] as int,
            forall|m1: int, m2: int| 0 <= m1 < m2 < out@.len() ==> #[trigger] src[m1] < #[trigger] src[m2],
            0 <= k <= n,
            n == order@.len(),
            order@.len() == ranked@.len(),
            ranked@.len() == input.len(),
            selected@.len() == n,
            forall|k: int| 0 <= k < order@.len() ==> #[trigger] order@[k] < ranked@.len(),
            forall|i: int| 0 <= i < ranked@.len() ==> same_candidate(#[trigger] ranked@[i].candidate, input[i]),
            out@.len() == count_true(selected@.take(k as int)),
            count_true(selected@) <= limit,
            forall|m: int| 0 <= m < out@.len() ==> from_input(#[trigger] out@[m], input),
            keys@.len() == ranked@.len(),
            forall|i: int| 0 <= i < ranked@.len() ==> (#[trigger] ranked@[i]).key@.len() > 0
                && ranked@[i].key@[0] == ranked@[i].candidate.score,
            forall|i: int| 0 <= i < keys@.len() ==> (#[trigger] keys@[i])@ == ranked@[i].key@,
            order_sorted(keys@, order@),
            scores_ascending(out@),
            forall|m: int, t: int|
                0 <= m < out@.len() && k <= t < n ==> #[trigger] out@[m].score
                    <= #[trigger] ranked@[order@[t] as int].candidate.score,
            near_selection(selected@, ranked@, order@),
            picked_from(out@, selected@, ranked@, order@, src, k as int),
            picks_listed(out@, selected@, ranked@, order@, dst, k as int),
        decreases n - k,
    {
        proof {
            lemma_count_true_take(selected@, k as int);
        }
        if selected[k] {
            let idx = order[k];
            let c = copy_candidate(&ranked[idx].candidate);
            assert(same_candidate(c, input[idx as int]));
            let ghost before = out@;
            out.push(c);
            proof {
                lemma_pick_tracked(before, out@, selected@, ranked@, order@, src, dst, k as int);
                assert forall|m: int| 0 <= m < before.len() implies #[trigger] src[m] < k by {}
                src = src.push(k as int);
                idxs = idxs.push(idx as int);
                dst = dst.push(before.len() as int);
                assert forall|m: int| 0 <= m < out@.len() implies from_input(#[trigger] out@[m], input) by {
                    if m == out@.len() - 1 {
                        assert(same_candidate(out@[m], input[idx as int]));
                    } else {
                        assert(out@[m] == before[m]);
                    }
                }
                assert(out@.last().score == ranked@[order@[k as int] as int].candidate.score);
                assert forall|p: int, q: int| 0 <= p < q < out@.len() implies #[trigger] out@[p].score
                    <= #[trigger] out@[q].score by {
                    if q == out@.len() - 1 {
                        assert(out@[p] == before[p]);
                        assert(before[p].score <= ranked@[order@[k as int] as int].candidate.score);
                    } else {
                        assert(out@[p] == before[p] && out@[q] == before[q]);
                    }
                }
            }
        }
        proof {
            if !selected@[k as int] {
                lemma_skip_tracked(out@, selected@, ranked@, order@, src, dst, k as int);
                dst = dst.push(0);
            }
            assert forall|m: int, t: int|
                0 <= m < out@.len() && k + 1 <= t < n implies #[trigger] out@[m].score
                    <= #[trigger] ranked@[order@[t] as int].candidate.score by {
                let ik = order@[k as int] as int;
                let it = order@[t] as int;
                assert(lex_le(keys@[ik]@, keys@[it]@));
                lemma_lex_le_first(keys@[ik]@, keys@[it]@);
                assert(out@[m].score <= ranked@[ik].candidate.score);
            }
        }
        k += 1;
    }
    proof {
        assert(selected@.take(n as int) =~= selected@);
        lemma_count_true_le(selected@);
        lemma_kept_near(out@, input, selected@, ranked@, order@, src, dst);
        assert forall|m1: int, m2: int| 0 <= m1 < out@.len() && 0 <= m2 < out@.len() && m1 != m2 implies #[trigger] idxs[m1]
            != #[trigger] idxs[m2] by {
            if m1 < m2 {
                assert(src[m1] < src[m2]);
            } else {
                assert(src[m2] < src[m1]);
            }
            lemma_order_distinct(order@, keys@.len() as int, src[m1], src[m2]);
        }
        assert forall|m: int| 0 <= m < out@.len() implies 0 <= #[trigger] idxs[m] < input.len() && same_candidate(
            out@[m],
            input[idxs[m]],
        ) by {
            assert(same_candidate(out@[m], ranked@[order@[src[m]] as int].candidate));
        }
        assert(picks_once(out@, input, idxs));
        if out@.len() > 0 {
            assert(selected@[0]);
            assert forall|x: int| 0 <= x < input.len() implies out@[0].score <= #[trigger] input[x].score by {
                lemma_order_covers(order@, keys@.len() as int, x);
                let t = choose|t: int| 0 <= t < order@.len() && order@[t] == x as usize;
                let i0 = order@[0] as int;
                if t > 0 {
                    assert(lex_le(keys@[i0]@, keys@[order@[t] as int]@));
                    lemma_lex_le_first(keys@[i0]@, keys@[order@[t] as int]@);
                }
                assert(same_candidate(ranked@[x].candidate, input[x]));
            }
        }
    }
    out
}

/// No picked candidate scores more than the widest window above a candidate
/// still unpicked.
spec fn near_selection(selected: Seq<bool>, ranked: Seq<RankedVoicingCandidate>, order: Seq<usize>) -> bool {
    forall|t1: int, t2: int|
        0 <= t1 < selected.len() && 0 <= t2 < selected.len() && #[trigger] selected[t1] && !#[trigger] selected[t2]
            ==> ranked[order[t1] as int].candidate.score <= ranked[order[t2] as int].candidate.score
            + MAX_DIVERSITY_SCORE_WINDOW
}

/// A pick within the window of the first unpicked candidate keeps every
/// picked candidate near every unpicked one.
proof fn lemma_pick_near(
    before: Seq<bool>,
    after: Seq<bool>,
    ranked: Seq<RankedVoicingCandidate>,
    order: Seq<usize>,
    keys: Seq<Vec<i64>>,
    first: int,
    chosen: int,
)
    requires
        near_selection(before, ranked, order),
        0 <= first <= chosen < before.len(),
        after == before.update(chosen, true),
        forall|k: int| 0 <= k < first ==> #[trigger] before[k],
        order.len() == before.len(),
        forall|k: int| 0 <= k < order.len() ==> #[trigger] order[k] < ranked.len(),
        keys.len() == ranked.len(),
        forall|i: int| 0 <= i < ranked.len() ==> (#[trigger] ranked[i]).key@.len() > 0
            && ranked[i].key@[0] == ranked[i].candidate.score,
        forall|i: int| 0 <= i < keys.len() ==> (#[trigger] keys[i])@ == ranked[i].key@,
        order_sorted(keys, order),
        ranked[order[chosen] as int].candidate.score <= ranked[order[first] as int].candidate.score
            + MAX_DIVERSITY_SCORE_WINDOW,
    ensures
        near_selection(after, ranked, order),
{
    assert forall|t1: int, t2: int|
        0 <= t1 < after.len() && 0 <= t2 < after.len() && #[trigger] after[t1] && !#[trigger] after[t2] implies
        ranked[order[t1] as int].candidate.score <= ranked[order[t2] as int].candidate.score
            + MAX_DIVERSITY_SCORE_WINDOW by {
        assert(!before[t2]);
        if t1 == chosen {
            assert(t2 >= first);
            if t2 > first {
                let i1 = order[first] as int;
                let i2 = order[t2] as int;
                assert(lex_le(keys[i1]@, keys[i2]@));
                lemma_lex_le_first(keys[i1]@, keys[i2]@);
            }
        } else {
            assert(before[t1]);
        }
    }
}

/// `src` gives, for each kept candidate, the picked place in `order` among the
/// first `k` that it copies.
spec fn picked_from(
    out: Seq<VoicingCandidate>,
    selected: Seq<bool>,
    ranked: Seq<RankedVoicingCandidate>,
    order: Seq<usize>,
    src: Seq<int>,
    k: int,
) -> bool {
    &&& src.len() == out.len()
    &&& forall|m: int|
        0 <= m < out.len() ==> 0 <= #[trigger] src[m] < k && selected[src[m]] && same_candidate(
            out[m],
            ranked[order[src[m]] as int].candidate,
        )
}

/// `dst` gives, for each picked place among the first `k`, a kept candidate
/// that copies it.
spec fn picks_listed(
    out: Seq<VoicingCandidate>,
    selected: Seq<bool>,
    ranked: Seq<RankedVoicingCandidate>,
    order: Seq<usize>,
    dst: Seq<int>,
    k: int,
) -> bool {
    &&& dst.len() == k
    &&& forall|t: int|
        0 <= t < k && selected[t] ==> 0 <= #[trigger] dst[t] < out.len() && same_candidate(
            out[dst[t]],
            ranked[order[t] as int].candidate,
        )
}

/// Keeping the pick at place `k` extends both maps.
proof fn lemma_pick_tracked(
    before: Seq<VoicingCandidate>,
    out: Seq<VoicingCandidate>,
    selected: Seq<bool>,
    ranked: Seq<RankedVoicingCandidate>,
    order: Seq<usize>,
    src: Seq<int>,
    dst: Seq<int>,
    k: int,
)
    requires
        0 <= k < selected.len(),
        selected[k],
        out.len() == before.len() + 1,
        forall|m: int| 0 <= m < before.len() ==> out[m] == before[m],
        same_candidate(out[before.len() as int], ranked[order[k] as int].candidate),
        picked_from(before, selected, ranked, order, src, k),
        picks_listed(before, selected, ranked, order, dst, k),
    ensures
        picked_from(out, selected, ranked, order, src.push(k), k + 1),
        picks_listed(out, selected, ranked, order, dst.push(before.len() as int), k + 1),
{
    let src2 = src.push(k);
    let dst2 = dst.push(before.len() as int);
    assert forall|m: int| 0 <= m < out.len() implies 0 <= #[trigger] src2[m] < k + 1 && selected[src2[m]]
        && same_candidate(out[m], ranked[order[src2[m]] as int].candidate) by {
        if m < before.len() {
            assert(src2[m] == src[m]);
        }
    }
    assert forall|t: int| 0 <= t < k + 1 && selected[t] implies 0 <= #[trigger] dst2[t] < out.len()
        && same_candidate(out[dst2[t]], ranked[order[t] as int].candidate) by {
        if t < k {
            assert(dst2[t] == dst[t]);
        }
    }
}

/// Passing over place `k` extends the map of picks.
proof fn lemma_skip_tracked(
    out: Seq<VoicingCandidate>,
    selected: Seq<bool>,
    ranked: Seq<RankedVoicingCandidate>,
    order: Seq<usize>,
    src: Seq<int>,
    dst: Seq<int>,
    k: int,
)
    requires
        0 <= k < selected.len(),
        !selected[k],
        picked_from(out, selected, ranked, order, src, k),
        picks_listed(out, selected, ranked, order, dst, k),
    ensures
        picked_from(out, selected, ranked, order, src, k + 1),
        picks_listed(out, selected, ranked, order, dst.push(0), k + 1),
{
    let dst2 = dst.push(0);
    assert forall|t: int| 0 <= t < k + 1 && selected[t] implies 0 <= #[trigger] dst2[t] < out.len()
        && same_candidate(out[dst2[t]], ranked[order[t] as int].candidate) by {
        assert(dst2[t] == dst[t]);
    }
}

/// The kept list is near every candidate it passed over.
proof fn lemma_kept_near(
    out: Seq<VoicingCandidate>,
    input: Seq<VoicingCandidate>,
    selected: Seq<bool>,
    ranked: Seq<RankedVoicingCandidate>,
    order: Seq<usize>,
    src: Seq<int>,
    dst: Seq<int>,
)
    requires
        near_selection(selected, ranked, order),
        selected.len() == order.len(),
        order.len() == ranked.len(),
        ranked.len() == input.len(),
        input.len() <= usize::MAX,
        forall|k: int| 0 <= k < order.len() ==> #[trigger] order[k] < ranked.len(),
        order.to_multiset() == index_range(0, input.len() as int).to_multiset(),
        forall|i: int| 0 <= i < ranked.len() ==> same_candidate(#[trigger] ranked[i].candidate, input[i]),
        picked_from(out, selected, ranked, order, src, selected.len() as int),
        picks_listed(out, selected, ranked, order, dst, selected.len() as int),
    ensures
        kept_near_passed_over(out, input),
{
    broadcast use vstd::seq_lib::group_to_multiset_ensures;

    assert forall|x: int, k: int|
        0 <= x < input.len() && 0 <= k < out.len() && !listed(out, input[x]) implies #[trigger] out[k].score
            <= #[trigger] input[x].score + MAX_DIVERSITY_SCORE_WINDOW by {
        let range = index_range(0, input.len() as int);
        assert(range[x] == x as usize);
        assert(range.contains(x as usize));
        assert(order.to_multiset().count(x as usize) > 0);
        assert(order.contains(x as usize));
        let t2 = choose|t: int| 0 <= t < order.len() && order[t] == x as usize;
        assert(order[t2] as int == x);
        if selected[t2] {
            let m = dst[t2];
            assert(same_candidate(out[m], ranked[x].candidate));
            assert(same_candidate(out[m], input[x]));
        }
        let t1 = src[k];
        assert(selected[t1] && !selected[t2]);
    }
}

/// Number of `true` entries.
pub open spec fn count_true(s: Seq<bool>) -> nat
    decreases s.len(),
{
    if s.len() == 0 {
        0
    } else {
        count_true(s.drop_last()) + if s.last() {
            1nat
        } else {
            0
        }
    }
}

/// A value at two places of a sequence is counted at least twice.
proof fn lemma_count_two<A>(s: Seq<A>, a: int, b: int)
    requires
        0 <= a < b < s.len(),
        s[a] == s[b],
    ensures
        s.to_multiset().count(s[a]) >= 2,
    decreases s.len(),
{
    let t = s.drop_last();
    assert(t.push(s.last()) =~= s);
    t.to_multiset_ensures();
    if b == s.len() - 1 {
        assert(t[a] == s[a]);
        assert(t.contains(s[a]));
        assert(t.to_multiset().count(s[a]) >= 1);
    } else {
        assert(t[a] == s[a] && t[b] == s[b]);
        lemma_count_two(t, a, b);
    }
}

/// Each index appears once in a range of indices.
proof fn lemma_index_range_once(lo: int, hi: int, v: usize)
    requires
        0 <= lo <= hi <= usize::MAX,
    ensures
        index_range(lo, hi).to_multiset().count(v) <= 1,
    decreases hi - lo,
{
    if hi > lo {
        let r = index_range(lo, hi);
        let t = index_range(lo, hi - 1);
        assert(t.push((hi - 1) as usize) =~= r);
        t.to_multiset_ensures();
        lemma_index_range_once(lo, hi - 1, v);
        assert(r.to_multiset() =~= t.to_multiset().insert((hi - 1) as usize));
        if v != (hi - 1) as usize {
            assert(r.to_multiset().count(v) == t.to_multiset().count(v));
        }
        if v == (hi - 1) as usize {
            assert(!t.contains(v)) by {
                if t.contains(v) {
                    let k = choose|k: int| 0 <= k < t.len() && t[k] == v;
                    assert(t[k] == (lo + k) as usize);
                }
            }
            assert(t.to_multiset().count(v) == 0);
        }
    } else {
        let r = index_range(lo, hi);
        r.to_multiset_ensures();
        assert(!r.contains(v));
    }
}

/// Every index of the range appears in a permutation of it.
pub(crate) proof fn lemma_order_covers(order: Seq<usize>, n: int, x: int)
    requires
        0 <= x < n <= usize::MAX,
        order.to_multiset() == index_range(0, n).to_multiset(),
    ensures
        exists|t: int| 0 <= t < order.len() && order[t] == x as usize,
{
    let r = index_range(0, n);
    r.to_multiset_ensures();
    order.to_multiset_ensures();
    assert(r[x] == x as usize);
    assert(r.contains(x as usize));
    assert(r.to_multiset().count(x as usize) > 0);
    assert(order.to_multiset().count(x as usize) > 0);
    assert(order.contains(x as usize));
}

/// A permutation of indices holds each index once.
pub(crate) proof fn lemma_order_distinct(order: Seq<usize>, n: int, a: int, b: int)
    requires
        0 <= n <= usize::MAX,
        order.to_multiset() == index_range(0, n).to_multiset(),
        0 <= a < order.len(),
        0 <= b < order.len(),
        a != b,
    ensures
        order[a] != order[b],
{
    if order[a] == order[b] {
        if a < b {
            lemma_count_two(order, a, b);
        } else {
            lemma_count_two(order, b, a);
        }
        lemma_index_range_once(0, n, order[a]);
    }
}

/// Setting a `false` entry adds one.
proof fn lemma_count_true_set(s: Seq<bool>, i: int)
    requires
        0 <= i < s.len(),
        !s[i],
    ensures
        count_true(s.update(i, true)) == count_true(s) + 1,
    decreases s.len(),
{
    if i == s.len() - 1 {
        assert(s.update(i, true).drop_last() =~= s.drop_last());
    } else {
        lemma_count_true_set(s.drop_last(), i);
        assert(s.update(i, true).drop_last() =~= s.drop_last().update(i, true));
    }
}

/// Counting a prefix one entry longer.
proof fn lemma_count_true_take(s: Seq<bool>, k: int)
    requires
        0 <= k < s.len(),
    ensures
        count_true(s.take(k + 1)) == count_true(s.take(k)) + if s[k] {
            1nat
        } else {
            0
        },
{
    assert(s.take(k + 1).drop_last() =~= s.take(k));
}

/// When every entry is `true`, the count is the length.
proof fn lemma_count_true_all(s: Seq<bool>)
    requires
        forall|k: int| 0 <= k < s.len() ==> #[trigger] s[k],
    ensures
        count_true(s) == s.len(),
    decreases s.len(),
{
    if s.len() > 0 {
        lemma_count_true_all(s.drop_last());
    }
}

/// With no `true` entry the count is zero.
proof fn lemma_count_true_none(s: Seq<bool>)
    requires
        forall|k: int| 0 <= k < s.len() ==> !#[trigger] s[k],
    ensures
        count_true(s) == 0,
    decreases s.len(),
{
    if s.len() > 0 {
        lemma_count_true_none(s.drop_last());
    }
}

/// A count of `true` entries is at most the length.
proof fn lemma_count_true_le(s: Seq<bool>)
    ensures
        count_true(s) <= s.len(),
    decreases s.len(),
{
    if s.len() > 0 {
        lemma_count_true_le(s.drop_last());
    }
}

/// Ranks candidates for the requested mode: all in ranking order, or a
/// curated, diverse selection.
pub fn rank_voicing_candidates(candidates: Vec<VoicingCandidate>, options: VoicingOptions) -> (r: Vec<
    VoicingCandidate,
>)
    requires
        forall|i: int| 0 <= i < candidates@.len() ==> frets_ok(#[trigger] candidates@[i].frets, candidates@[i].string_count as int),
    ensures
        r@.len() <= candidates@.len(),
        options.mode matches VoicingMode::Curated { limit } ==> r@.len() == if limit
            < candidates@.len() {
            limit as int
        } else {
            candidates@.len() as int
        },
        options.mode is All ==> r@.len() == candidates@.len() && exists|order: Seq<usize>|
            #[trigger] reorders(r@, candidates@, order),
        options.mode is Curated ==> kept_near_passed_over(r@, candidates@),
        options.mode is Curated ==> exists|idx: Seq<int>| #[trigger] picks_once(r@, candidates@, idx),
        options.mode is Curated && r@.len() > 0 ==> forall|x: int|
            0 <= x < candidates@.len() ==> r@[0].score <= #[trigger] candidates@[x].score,
        forall|k: int| 0 <= k < r@.len() ==> from_input(#[trigger] r@[k], candidates@),
        scores_ascending(r@),
{
    match options.mode {
        VoicingMode::All => rank_all_voicing_candidates(candidates),
        VoicingMode::Curated { limit } => rank_diverse_voicing_candidates(candidates, limit),
    }
}

} // verus!
