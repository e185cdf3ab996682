use vstd::prelude::*;

use crate::formula::{formula_tone, slots_from, spec_tones, tone_wf, ChordFormula, ChordTone};
use crate::identify::{
    can_infer_omission, can_omit, inferred_omission_degrees, omission_allowed, omission_list,
    omission_degree_of, omission_mask_for, omission_seq, tone_pitches, InferredOmission,
};
use crate::notes::{
    bit_set, fret_ok, guitar_standard_notes, lemma_bits_ext, note_pitch, pitch_mod, sharp_name, standard_tuning, Fingering, Instrument, NoteName, PitchClass, PitchSet,
    Tuning,
};
use crate::scoring::{
    breakdown_of, breakdown_total, copy_candidate, reorders, from_input, rank_voicing_candidates, same_candidate, scores_ascending, voicing_score_breakdown,
    voicing_score_with_profile, VoicingScoreBreakdown,
};

use crate::parse::normalized_glyphs;
use crate::symbol::{symbol_text_parts, symbol_valid, ChordSymbol};
use crate::text::{chars_to_string, decimal, push_decimal, push_str, trimmed};
use crate::{
    ChordClawError, ChordClawErrorKind, DEFAULT_LIMIT, DEFAULT_MAX_FRET, DEFAULT_MAX_SPAN, DEFAULT_MIN_FRET,
    MAX_ALL_VOICINGS, MAX_DIVERSITY_SCORE_WINDOW, MAX_LIMIT, MAX_STANDARD_FRET,
};

verus! {

/// Whether to rank a curated list of at most `limit` voicings or to return
/// every voicing.
#[derive(Copy, Clone, Debug, Eq, PartialEq, Structural)]
pub enum VoicingMode {
    Curated { limit: usize },
    All,
}

/// The fret window, the widest stretch, and the mode of a voicing search.
#[derive(Copy, Clone, Debug, Eq, PartialEq, Structural)]
pub struct VoicingOptions {
    pub min_fret: u8,
    pub max_fret: u8,
    pub max_span: u8,
    pub mode: VoicingMode,
}

impl Default for VoicingOptions {
    fn default() -> (o: Self)
        ensures
            o.min_fret == DEFAULT_MIN_FRET,
            o.max_fret == DEFAULT_MAX_FRET,
            o.max_span == DEFAULT_MAX_SPAN,
            o.mode == (VoicingMode::Curated { limit: DEFAULT_LIMIT }),
    {
        VoicingOptions {
            min_fret: DEFAULT_MIN_FRET,
            max_fret: DEFAULT_MAX_FRET,
            max_span: DEFAULT_MAX_SPAN,
            mode: VoicingMode::Curated { limit: DEFAULT_LIMIT },
        }
    }
}

/// A generated voicing: its fingering texts, frets, note names, inferred
/// omissions and score (lower is better).
#[derive(Clone, Debug, Eq, PartialEq)]
pub struct Voicing {
    pub compact: String,
    pub dashed: String,
    pub frets: Vec<Option<u8>>,
    pub notes: Vec<String>,
    pub omissions: Vec<String>,
    pub score: u32,
}

/// Voicings come best first: scores never fall along the list.
pub open spec fn voicings_ranked(v: Seq<Voicing>) -> bool {
    forall|i: int, j: int| 0 <= i < j < v.len() ==> #[trigger] v[i].score <= #[trigger] v[j].score
}

/// A fret window that starts above the nut leaves no string open.
pub proof fn law_min_fret_excludes_open(v: Voicing, n: int, options: VoicingOptions)
    requires
        voicing_in_window(v, n, options),
        options.min_fret > 0,
    ensures
        forall|i: int| 0 <= i < v.frets@.len() ==> #[trigger] v.frets@[i] != Some(0u8),
{
    assert forall|i: int| 0 <= i < v.frets@.len() implies #[trigger] v.frets@[i] != Some(0u8) by {
        if v.frets@[i] == Some(0u8) {
            assert(v.frets@[i] matches Some(f) ==> options.min_fret <= f);
        }
    }
}

/// What the lowest sounding note must, or should, be.
#[derive(Copy, Clone, Debug, Eq, PartialEq)]
pub enum BassRule {
    Required(PitchClass),
    Preferred(PitchClass),
    Any,
}

impl BassRule {
    /// The bass a voicing must have.
    pub fn required(self) -> (r: Option<PitchClass>)
        ensures
            r == (match self {
                BassRule::Required(p) => Some(p),
                _ => None,
            }),
    {
        match self {
            BassRule::Required(p) => Some(p),
            _ => None,
        }
    }

    /// The bass a voicing should have.
    pub fn preferred(self) -> (r: Option<PitchClass>)
        ensures
            r == (match self {
                BassRule::Required(p) => Some(p),
                BassRule::Preferred(p) => Some(p),
                BassRule::Any => None,
            }),
    {
        match self {
            BassRule::Required(p) => Some(p),
            BassRule::Preferred(p) => Some(p),
            BassRule::Any => None,
        }
    }
}

/// A scored voicing before it is written out.
#[derive(Clone, Debug, Eq, PartialEq)]
pub struct VoicingCandidate {
    pub frets: [Option<u8>; 8],
    pub string_count: usize,
    pub omissions: Vec<InferredOmission>,
    pub score: u32,
}

/// Frets of the first `n` strings, each muted or within the supported range.
pub open spec fn frets_ok(frets: [Option<u8>; 8], n: int) -> bool {
    &&& 0 <= n <= 8
    &&& forall|i: int| 0 <= i < 8 ==> fret_ok(#[trigger] frets@[i])
}

/// Every played string of the first `n` is muted or stopped within
/// `min..=max`.
pub open spec fn frets_within(frets: [Option<u8>; 8], n: int, min: int, max: int) -> bool {
    forall|i: int| 0 <= i < n ==> (#[trigger] frets@[i] matches Some(f) ==> min <= f <= max)
}

/// No two stopped (non-open) strings of the first `n` are more than `span`
/// frets apart.
pub open spec fn span_within(frets: [Option<u8>; 8], n: int, span: int) -> bool {
    forall|i: int, j: int|
        0 <= i < n && 0 <= j < n ==> (#[trigger] frets@[i] matches Some(a) ==> (#[trigger] frets@[j] matches Some(
            b,
        ) ==> (a > 0 && b > 0 ==> a - b <= span)))
}

/// The shape of a fretting that scoring reads: the stopped frets, their sum,
/// lowest and highest, how many strings sound, open strings, the first and
/// last sounding strings, and the muted strings inside and after them.
#[derive(Copy, Clone, Debug, Eq, PartialEq)]
pub struct FretProfile {
    pub non_open: [u8; 8],
    pub non_open_count: usize,
    pub non_open_sum: u16,
    pub min_non_open: Option<u8>,
    pub max_non_open: Option<u8>,
    pub active_count: usize,
    pub has_open: bool,
    pub first_played: Option<usize>,
    pub last_played: Option<usize>,
    pub internal_mutes: u32,
    pub trailing_mutes: usize,
}

/// A profile's counts and frets are within their ranges.
pub open spec fn profile_wf(p: FretProfile, n: int) -> bool {
    &&& n <= 8
    &&& p.non_open_count <= p.active_count <= n
    &&& p.non_open_sum <= 30 * p.non_open_count
    &&& p.internal_mutes <= 8
    &&& p.trailing_mutes <= 8
    &&& forall|i: int| 0 <= i < 8 ==> #[trigger] p.non_open@[i] <= 30
    &&& (p.min_non_open is Some) == (p.non_open_count > 0)
    &&& (p.max_non_open is Some) == (p.non_open_count > 0)
    &&& p.min_non_open matches Some(m) ==> 1 <= m <= 30 && p.non_open_sum >= m * p.non_open_count
    &&& p.max_non_open matches Some(m) ==> 1 <= m <= 30
    &&& (p.min_non_open matches Some(a) ==> (p.max_non_open matches Some(b) ==> a <= b))
    &&& (p.first_played is Some) == (p.active_count > 0)
    &&& (p.last_played is Some) == (p.active_count > 0)
    &&& p.first_played matches Some(f) ==> f < n
    &&& p.last_played matches Some(l) ==> l < n
}

/// Number of muted strings among strings `lo..hi`.
pub open spec fn muted_between(frets: Seq<Option<u8>>, lo: int, hi: int) -> nat
    decreases hi - lo,
{
    if hi <= lo {
        0
    } else {
        muted_between(frets, lo, hi - 1) + if frets[hi - 1] is None {
            1nat
        } else {
            0nat
        }
    }
}

/// Number of the first `k` strings that sound.
pub open spec fn sounding_count(frets: Seq<Option<u8>>, k: int) -> nat
    decreases k,
{
    if k <= 0 {
        0
    } else {
        sounding_count(frets, k - 1) + if frets[k - 1] is Some {
            1nat
        } else {
            0nat
        }
    }
}

/// The frets above the nut among the first `k` strings, in string order.
pub open spec fn stopped_frets(frets: Seq<Option<u8>>, k: int) -> Seq<u8>
    decreases k,
{
    if k <= 0 {
        seq![]
    } else {
        stopped_frets(frets, k - 1) + match frets[k - 1] {
            Some(f) => if f > 0 {
                seq![f]
            } else {
                seq![]
            },
            None => seq![],
        }
    }
}

/// Sum of the frets above the nut among the first `k` strings.
pub open spec fn stopped_sum(frets: Seq<Option<u8>>, k: int) -> nat
    decreases k,
{
    if k <= 0 {
        0
    } else {
        stopped_sum(frets, k - 1) + match frets[k - 1] {
            Some(f) => f as nat,
            None => 0nat,
        }
    }
}

/// `p` is the profile of the first `n` strings of `frets`: the stopped
/// frets in order with their count and sum, the lowest and highest of them,
/// the sounding strings, whether one is open, the first and last sounding
/// strings, the muted strings between them and those after the last.
pub open spec fn profile_of(p: FretProfile, frets: Seq<Option<u8>>, n: int) -> bool {
    &&& p.non_open_count == stopped_frets(frets, n).len()
    &&& p.non_open@.take(p.non_open_count as int) == stopped_frets(frets, n)
    &&& p.non_open_sum == stopped_sum(frets, n)
    &&& p.active_count == sounding_count(frets, n)
    &&& p.has_open == (exists|i: int| 0 <= i < n && #[trigger] frets[i] == Some(0u8))
    &&& (p.min_non_open matches Some(m) ==> (exists|i: int| 0 <= i < n && #[trigger] frets[i] == Some(m))
        && forall|i: int| 0 <= i < n ==> (#[trigger] frets[i] matches Some(v) ==> (v > 0 ==> m <= v)))
    &&& (p.max_non_open matches Some(m) ==> (exists|i: int| 0 <= i < n && #[trigger] frets[i] == Some(m))
        && forall|i: int| 0 <= i < n ==> (#[trigger] frets[i] matches Some(v) ==> (v > 0 ==> v <= m)))
    &&& (p.first_played matches Some(f) ==> frets[f as int] is Some && forall|i: int|
        0 <= i < f ==> #[trigger] frets[i] is None)
    &&& (p.last_played matches Some(l) ==> frets[l as int] is Some && forall|i: int|
        l < i < n ==> #[trigger] frets[i] is None)
    &&& p.internal_mutes == (match (p.first_played, p.last_played) {
        (Some(f), Some(l)) => muted_between(frets, f as int, l as int),
        _ => 0,
    })
    &&& p.trailing_mutes == (match p.last_played {
        Some(l) => muted_between(frets, l + 1, n),
        None => 0,
    })
}

/// Counting muted strings over two adjoining ranges.
proof fn lemma_muted_split(frets: Seq<Option<u8>>, a: int, b: int, c: int)
    requires
        a <= b <= c,
    ensures
        muted_between(frets, a, c) == muted_between(frets, a, b) + muted_between(frets, b, c),
    decreases c - b,
{
    if c > b {
        lemma_muted_split(frets, a, b, c - 1);
    }
}

impl FretProfile {
    /// Distance between the highest and the lowest stopped fret.
    pub fn fret_span(&self) -> (s: Option<u8>)
        requires
            profile_wf(*self, 8),
        ensures
            s is Some <==> self.non_open_count > 0,
            s matches Some(v) ==> v <= 29 && v == self.max_non_open->0 - self.min_non_open->0,
    {
        match (self.min_non_open, self.max_non_open) {
            (Some(min), Some(max)) => Some(max - min),
            _ => None,
        }
    }
}

/// The profile of the first `n` strings of `frets`.
pub fn fret_profile(frets: &[Option<u8>; 8], n: usize) -> (p: FretProfile)
    requires
        frets_ok(*frets, n as int),
    ensures
        profile_wf(p, n as int),
        p.min_non_open matches Some(m) ==> forall|i: int|
            0 <= i < n ==> (#[trigger] frets@[i] matches Some(v) ==> (v > 0 ==> m <= v)),
        p.max_non_open matches Some(m) ==> forall|i: int|
            0 <= i < n ==> (#[trigger] frets@[i] matches Some(v) ==> (v > 0 ==> v <= m)),
        p.non_open_count == 0 ==> forall|i: int|
            0 <= i < n ==> (#[trigger] frets@[i] matches Some(v) ==> v == 0),
        p.active_count == 0 <==> forall|i: int| 0 <= i < n ==> #[trigger] frets@[i] is None,
        profile_of(p, frets@, n as int),
{
    let mut non_open = [0u8; 8];
    let mut non_open_count: usize = 0;
    let mut non_open_sum: u16 = 0;
    let mut min_non_open: Option<u8> = None;
    let mut max_non_open: Option<u8> = None;
    let mut active_count: usize = 0;
    let mut has_open = false;
    let mut first_played: Option<usize> = None;
    let mut last_played: Option<usize> = None;
    let mut internal_mutes: u32 = 0;
    let mut trailing: usize = 0;
    let mut idx: usize = 0;
    assert(non_open@.take(0) =~= Seq::<u8>::empty());
    while idx < n
        invariant
            0 <= idx <= n <= 8,
            frets_ok(*frets, n as int),
            non_open_count <= active_count <= idx,
            non_open_sum <= 30 * non_open_count,
            internal_mutes + trailing <= idx,
            forall|i: int| 0 <= i < 8 ==> #[trigger] non_open@[i] <= 30,
            (min_non_open is Some) == (non_open_count > 0),
            (max_non_open is Some) == (non_open_count > 0),
            min_non_open matches Some(m) ==> 1 <= m <= 30 && non_open_sum >= m * non_open_count,
            max_non_open matches Some(m) ==> 1 <= m <= 30,
            (min_non_open matches Some(a) ==> (max_non_open matches Some(b) ==> a <= b)),
            (first_played is Some) == (active_count > 0),
            (last_played is Some) == (active_count > 0),
            first_played matches Some(f) ==> f < idx,
            last_played matches Some(l) ==> l < idx,
            first_played matches Some(f) ==> (last_played matches Some(l) ==> f <= l),
            min_non_open matches Some(m) ==> forall|i: int|
                0 <= i < idx ==> (#[trigger] frets@[i] matches Some(v) ==> (v > 0 ==> m <= v)),
            max_non_open matches Some(m) ==> forall|i: int|
                0 <= i < idx ==> (#[trigger] frets@[i] matches Some(v) ==> (v > 0 ==> v <= m)),
            non_open_count == 0 ==> forall|i: int|
                0 <= i < idx ==> (#[trigger] frets@[i] matches Some(v) ==> v == 0),
            active_count == 0 <==> forall|i: int| 0 <= i < idx ==> #[trigger] frets@[i] is None,
            profile_of(
                FretProfile {
                    non_open,
                    non_open_count,
                    non_open_sum,
                    min_non_open,
                    max_non_open,
                    active_count,
                    has_open,
                    first_played,
                    last_played,
                    internal_mutes,
                    trailing_mutes: trailing,
                },
                frets@,
                idx as int,
            ),
        decreases n - idx,
    {
        assert(fret_ok(frets@[idx as int]));
        match frets[idx] {
            None => {
                if active_count > 0 {
                    trailing += 1;
                }
            },
            Some(fret) => {
                if active_count == 0 {
                    first_played = Some(idx);
                } else {
                    proof {
                        let f = first_played->0 as int;
                        let l = last_played->0 as int;
                        lemma_muted_split(frets@, f, l, idx as int);
                        lemma_muted_split(frets@, l, l + 1, idx as int);
                        assert(muted_between(frets@, l, l) == 0);
                    }
                    internal_mutes += trailing as u32;
                    trailing = 0;
                }
                last_played = Some(idx);
                active_count += 1;
                if fret == 0 {
                    has_open = true;
                } else {
                    let ghost old_non_open = non_open@;
                    non_open[non_open_count] = fret;
                    assert(non_open@.take(non_open_count + 1) =~= old_non_open.take(non_open_count as int).push(fret));
                    let old_count = non_open_count;
                    let old_sum = non_open_sum;
                    non_open_count += 1;
                    non_open_sum += fret as u16;
                    let new_min = match min_non_open {
                        Some(current) => if fret < current {
                            fret
                        } else {
                            current
                        },
                        None => fret,
                    };
                    proof {
                        if old_count > 0 {
                            let m = min_non_open->0;
                            assert(old_sum >= m * old_count);
                            assert(new_min <= m);
                            assert(new_min * old_count <= m * old_count) by (nonlinear_arith)
                                requires
                                    new_min <= m,
                            ;
                        }
                        assert(non_open_sum >= new_min * non_open_count) by (nonlinear_arith)
                            requires
                                non_open_sum == old_sum + fret,
                                old_sum >= new_min * old_count,
                                new_min <= fret,
                                non_open_count == old_count + 1,
                        ;
                    }
                    min_non_open = Some(new_min);
                    max_non_open = Some(
                        match max_non_open {
                            Some(current) => if fret > current {
                                fret
                            } else {
                                current
                            },
                            None => fret,
                        },
                    );
                }
            },
        }
        proof {
            let q = FretProfile {
                non_open,
                non_open_count,
                non_open_sum,
                min_non_open,
                max_non_open,
                active_count,
                has_open,
                first_played,
                last_played,
                internal_mutes,
                trailing_mutes: trailing,
            };
            let k = idx + 1;
            let fr = frets@;
            assert(q.non_open_count == stopped_frets(fr, k).len());
            assert(q.non_open@.take(q.non_open_count as int) == stopped_frets(fr, k));
            assert(q.non_open_sum == stopped_sum(fr, k));
            assert(q.active_count == sounding_count(fr, k));
            assert(q.has_open == (exists|i: int| 0 <= i < k && #[trigger] fr[i] == Some(0u8)));
            assert(q.min_non_open matches Some(m) ==> (exists|i: int| 0 <= i < k && #[trigger] fr[i] == Some(m)));
            assert(q.max_non_open matches Some(m) ==> (exists|i: int| 0 <= i < k && #[trigger] fr[i] == Some(m)));
            assert(q.first_played matches Some(f) ==> fr[f as int] is Some && forall|i: int|
                0 <= i < f ==> #[trigger] fr[i] is None);
            assert(q.last_played matches Some(l) ==> fr[l as int] is Some && forall|i: int|
                l < i < k ==> #[trigger] fr[i] is None);
            assert(q.internal_mutes == (match (q.first_played, q.last_played) {
                (Some(f), Some(l)) => muted_between(fr, f as int, l as int),
                _ => 0,
            }));
            assert(q.trailing_mutes == (match q.last_played {
                Some(l) => muted_between(fr, l + 1, k),
                None => 0,
            }));
        }
        idx += 1;
    }
    FretProfile {
        non_open,
        non_open_count,
        non_open_sum,
        min_non_open,
        max_non_open,
        active_count,
        has_open,
        first_played,
        last_played,
        internal_mutes,
        trailing_mutes: trailing,
    }
}


/// A fret choice of a string: muted, or a fret within `min..=max`.
pub open spec fn choice_ok(c: Option<u8>, min: int, max: int) -> bool {
    c matches Some(f) ==> min <= f <= max
}

/// What the search reads: for each string the fret choices that sound a
/// wanted pitch, facts about the strings from each one on, the wanted
/// pitches, the omissible missing sets, the bass rule, the formula and the
/// options.
struct VoicingSearch {
    per_string: Vec<Vec<Option<u8>>>,
    suffix_sets: Vec<PitchSet>,
    suffix_min_non_open: Vec<Option<u8>>,
    suffix_has_open: Vec<bool>,
    suffix_required_bass_min: Vec<Option<i16>>,
    target: PitchSet,
    formula_target: PitchSet,
    non_omissible_pitches: PitchSet,
    omissible: Vec<u64>,
    bass_rule: BassRule,
    bass_spelling: Option<NoteName>,
    formula: ChordFormula,
    options: VoicingOptions,
    tuning: Tuning,
    n: usize,
}

/// The search's tables have their sizes and its choices their ranges.
spec fn search_wf(s: &VoicingSearch) -> bool {
    &&& s.n == s.tuning.spec_string_count()
    &&& s.n <= 8
    &&& s.per_string@.len() == s.n
    &&& s.suffix_sets@.len() == s.n + 1
    &&& s.suffix_min_non_open@.len() == s.n + 1
    &&& s.suffix_has_open@.len() == s.n + 1
    &&& s.suffix_required_bass_min@.len() == s.n + 1
    &&& s.omissible@.len() == 64
    &&& s.target.wf()
    &&& s.formula_target.wf()
    &&& s.non_omissible_pitches.wf()
    &&& s.formula.wf()
    &&& s.options.min_fret <= s.options.max_fret <= 30
    &&& s.options.max_span <= 30
    &&& forall|i: int| 0 <= i < s.n + 1 ==> #[trigger] s.suffix_sets@[i].wf()
    &&& forall|i: int| 0 <= i < s.n + 1 ==> (#[trigger] s.suffix_min_non_open@[i] matches Some(v) ==> 1 <= v <= 30)
    &&& forall|st: int, k: int|
        0 <= st < s.n && 0 <= k < s.per_string@[st]@.len() ==> choice_ok(
            #[trigger] s.per_string@[st]@[k],
            s.options.min_fret as int,
            s.options.max_fret as int,
        )
    &&& forall|st: int, k: int|
        0 <= st < s.n && 0 <= k < s.per_string@[st]@.len() ==> (#[trigger] s.per_string@[st]@[k] matches Some(
            f,
        ) ==> s.target.has(fret_pitch(s.tuning, st, f as int)))
    &&& forall|p: int|
        #[trigger] s.formula_target.has(p) <==> (exists|i: int|
            0 <= i < s.formula.tones@.len() && #[trigger] s.formula.tones@[i].pitch_class == p)
    &&& suffix_tables_cover(s)
    &&& forall|st: int| 0 <= st < s.n ==> #[trigger] s.per_string@[st]@ == wanted_frets(
        s.tuning,
        st,
        s.target,
        s.options.min_fret as int,
        s.options.max_fret + 1,
    ).push(None)
}

/// The tables for strings `j..n` account for every choice on those strings:
/// its pitch class is among the suffix pitches, and a required bass it
/// sounds is no lower than the suffix's lowest required bass.
spec fn suffix_tables_cover(s: &VoicingSearch) -> bool {
    forall|j: int, st: int, k: int|
        0 <= j <= st < s.n && 0 <= k < s.per_string@[st]@.len() ==> #[trigger] covered_choice(
            s.suffix_sets@,
            s.suffix_required_bass_min@,
            s.tuning,
            s.bass_rule,
            j,
            st,
            s.per_string@[st]@[k],
        )
}

/// A choice `c` on string `st` is a mute or a fret covered by entry `j` of
/// the tables.
spec fn covered_choice(
    sets: Seq<PitchSet>,
    bass: Seq<Option<i16>>,
    t: Tuning,
    rule: BassRule,
    j: int,
    st: int,
    c: Option<u8>,
) -> bool {
    match c {
        Some(f) => covered_by(sets, bass, t, rule, j, st, f),
        None => true,
    }
}

/// Fret `f` on string `st` is covered by entry `j` of suffix pitch sets
/// `sets` and suffix lowest required basses `bass`.
spec fn covered_by(
    sets: Seq<PitchSet>,
    bass: Seq<Option<i16>>,
    t: Tuning,
    rule: BassRule,
    j: int,
    st: int,
    f: u8,
) -> bool {
    &&& sets[j].has(fret_pitch(t, st, f as int))
    &&& (rule matches BassRule::Required(q) && fret_pitch(t, st, f as int) == q.spec_value() ==> (
    bass[j] matches Some(b) && b <= t.spec_open_pitch(st) + f))
}

/// The pitch class that string `i` of `t` sounds at fret `f`.
pub open spec fn fret_pitch(t: Tuning, i: int, f: int) -> int {
    pitch_mod(t.spec_open_pitch(i) + f)
}

/// Some string of `frets` sounds pitch class `p`.
pub open spec fn frets_sound(t: Tuning, frets: Seq<Option<u8>>, p: int) -> bool {
    exists|i: int|
        0 <= i < frets.len() && (#[trigger] frets[i] matches Some(f) && fret_pitch(t, i, f as int) == p)
}

/// String `i` sounds, and no sounding string is lower in absolute pitch.
pub open spec fn lowest_string(t: Tuning, frets: Seq<Option<u8>>, i: int) -> bool {
    &&& 0 <= i < frets.len()
    &&& frets[i] is Some
    &&& forall|j: int|
        0 <= j < frets.len() && #[trigger] frets[j] is Some ==> t.spec_open_pitch(j) + frets[j]->0
            >= t.spec_open_pitch(i) + frets[i]->0
}

/// A pitch class of a chord: one of its tones, or its slash bass.
pub open spec fn chord_pitch(tones: Seq<ChordTone>, bass: Option<NoteName>, p: int) -> bool {
    (exists|i: int| 0 <= i < tones.len() && #[trigger] tones[i].pitch_class == p) || (bass matches Some(
        b,
    ) && note_pitch(b) == p)
}

/// The tones of `chord`, as its formula spells them.
pub open spec fn chord_tones(chord: ChordSymbol) -> Seq<ChordTone> {
    slots_from(spec_tones(chord.spec), 0).map_values(|k: int| formula_tone(chord.root, k))
}

/// The pitch classes of `tones` that no string of `frets` sounds.
pub open spec fn unsounded(t: Tuning, frets: Seq<Option<u8>>, tones: Seq<ChordTone>) -> Set<int> {
    Set::new(
        |p: int|
            0 <= p < 12 && (exists|i: int| 0 <= i < tones.len() && #[trigger] tones[i].pitch_class == p)
                && !frets_sound(t, frets, p),
    )
}

/// `frets` sounds `chord` on `t`: every sounding string plays a chord
/// pitch; the tones left out are ones a voicing may omit; and a slash bass
/// is the lowest sounding pitch.
pub open spec fn sounds_chord(t: Tuning, frets: Seq<Option<u8>>, chord: ChordSymbol) -> bool {
    let tones = chord_tones(chord);
    let missing = unsounded(t, frets, tones);
    &&& forall|i: int|
        0 <= i < frets.len() && #[trigger] frets[i] is Some ==> chord_pitch(
            tones,
            chord.bass,
            fret_pitch(t, i, frets[i]->0 as int),
        )
    &&& missing == Set::<int>::empty() || omission_allowed(tones, missing)
    &&& chord.bass matches Some(b) ==> exists|i: int|
        #[trigger] lowest_string(t, frets, i) && fret_pitch(t, i, frets[i]->0 as int) == note_pitch(b)
}

/// What a search keeps of its chord: the formula's tones, the pitch sets,
/// and the bass rule.
spec fn search_for(s: &VoicingSearch, chord: ChordSymbol) -> bool {
    &&& s.formula.tones@ == chord_tones(chord)
    &&& forall|p: int|
        #[trigger] s.formula_target.has(p) <==> (exists|i: int|
            0 <= i < s.formula.tones@.len() && #[trigger] s.formula.tones@[i].pitch_class == p)
    &&& forall|p: int| #[trigger] s.target.has(p) <==> chord_pitch(chord_tones(chord), chord.bass, p)
    &&& match chord.bass {
        Some(b) => s.bass_rule matches BassRule::Required(q) && q.spec_value() == note_pitch(b),
        None => !(s.bass_rule is Required),
    }
    &&& bass_rule_is(s.bass_rule, chord, s.tuning)
}

/// A fretting of the search's strings that sounds its chord, in the terms
/// of the search: wanted pitches only, missing formula pitches omissible,
/// and a required bass lowest.
spec fn sounds_search(frets: Seq<Option<u8>>, s: &VoicingSearch) -> bool {
    let missing = Set::new(|p: int| s.formula_target.has(p) && !frets_sound(s.tuning, frets, p));
    &&& forall|i: int|
        0 <= i < frets.len() && #[trigger] frets[i] is Some ==> s.target.has(
            fret_pitch(s.tuning, i, frets[i]->0 as int),
        )
    &&& missing == Set::<int>::empty() || omission_allowed(s.formula.tones@, missing)
    &&& s.bass_rule matches BassRule::Required(q) ==> exists|i: int|
        #[trigger] lowest_string(s.tuning, frets, i) && fret_pitch(s.tuning, i, frets[i]->0 as int)
            == q.spec_value()
}

/// A fretting that sounds a search's chord in the search's terms sounds
/// the chord.
proof fn lemma_search_sounds_chord(s: &VoicingSearch, chord: ChordSymbol, frets: Seq<Option<u8>>)
    requires
        search_wf(s),
        search_for(s, chord),
        sounds_search(frets, s),
    ensures
        sounds_chord(s.tuning, frets, chord),
{
    let tones = chord_tones(chord);
    let a = Set::new(|p: int| s.formula_target.has(p) && !frets_sound(s.tuning, frets, p));
    let b = unsounded(s.tuning, frets, tones);
    assert(a =~= b);
}

/// A candidate that the search may keep: frets of the right strings, within
/// the fret window and the span, with at most three omissions.
spec fn candidate_ok(c: VoicingCandidate, s: &VoicingSearch) -> bool {
    &&& c.string_count == s.n
    &&& frets_ok(c.frets, s.n as int)
    &&& frets_within(c.frets, s.n as int, s.options.min_fret as int, s.options.max_fret as int)
    &&& span_within(c.frets, s.n as int, s.options.max_span as int)
    &&& c.omissions@.len() <= 3
    &&& sounds_search(c.frets@.take(s.n as int), s)
    &&& candidate_scored(c, s)
}

/// A candidate's strings past the search's are muted, and its score and
/// omissions are those its frets give.
spec fn candidate_scored(c: VoicingCandidate, s: &VoicingSearch) -> bool {
    let frets = c.frets@.take(s.n as int);
    let missing = Set::new(|p: int| s.formula_target.pitches().contains(p) && !frets_sound(s.tuning, frets, p));
    &&& forall|i: int| s.n <= i < 8 ==> #[trigger] c.frets@[i] is None
    &&& exists|b: VoicingScoreBreakdown|
        #[trigger] voicing_breakdown_of(s.tuning, s.bass_rule, s.formula.tones@, s.formula_target.pitches(), frets, b)
            && c.score == b.total
    &&& c.omissions@ == omission_seq(missing_mask(s.formula.tones@, missing) as u8)
}

/// Everything in `v` but its note names follows from its frets as a voicing
/// of `chord` on `t`: its score is the total of their breakdown, its texts
/// are theirs, and its omissions are the degrees of the chord tones they
/// leave out.
pub open spec fn voicing_from_frets(t: Tuning, chord: ChordSymbol, v: Voicing) -> bool {
    let tones = chord_tones(chord);
    let missing = Set::new(|p: int| tone_pitches(tones).contains(p) && !frets_sound(t, v.frets@, p));
    let omitted = omission_seq(missing_mask(tones, missing) as u8);
    &&& exists|rule: BassRule, b: VoicingScoreBreakdown|
        bass_rule_is(rule, chord, t) && #[trigger] voicing_breakdown_of(
            t,
            rule,
            tones,
            tone_pitches(tones),
            v.frets@,
            b,
        ) && v.score == b.total
    &&& voicing_texts(v)
    &&& v.omissions@.len() == omitted.len()
    &&& forall|k: int| 0 <= k < omitted.len() ==> (#[trigger] v.omissions@[k])@ == decimal(
        omission_degree_of(omitted[k]) as nat,
    )
}

/// `r` is the bass rule of `chord` on `t`: its slash bass is required;
/// else its root is preferred unless the root is omitted or the first
/// string is not the lowest.
pub open spec fn bass_rule_is(r: BassRule, chord: ChordSymbol, t: Tuning) -> bool {
    match chord.bass {
        Some(b) => r matches BassRule::Required(q) && q.spec_value() == note_pitch(b),
        None => if chord.spec.has_omission(1) || (t.spec_string_count() > 1 && t.spec_open_pitch(0)
            > t.spec_open_pitch(1)) {
            r is Any
        } else {
            r matches BassRule::Preferred(q) && q.spec_value() == note_pitch(chord.root)
        },
    }
}

/// The bass rule of a chord: a slash bass is required; otherwise the root is
/// preferred, unless the root is omitted or the tuning's first string is
/// not its lowest.
fn bass_rule_for_chord(chord: &ChordSymbol, tuning: &Tuning) -> (r: BassRule)
    ensures
        match chord.bass {
            Some(b) => r matches BassRule::Required(q) && q.spec_value() == note_pitch(b),
            None => !(r is Required),
        },
        bass_rule_is(r, *chord, *tuning),
{
    if let Some(bass) = chord.bass {
        return BassRule::Required(bass.pitch_class());
    }
    if chord.spec.contains_omission(1) || !tuning.prefers_root_bass() {
        BassRule::Any
    } else {
        BassRule::Preferred(chord.root.pitch_class())
    }
}

/// The formula's pitches with the slash bass.
fn required_pitch_set(chord: &ChordSymbol, formula: &ChordFormula) -> (s: PitchSet)
    requires
        formula.wf(),
    ensures
        s.wf(),
        forall|p: int| #[trigger] s.has(p) <==> chord_pitch(formula.tones@, chord.bass, p),
{
    let mut target = formula.pitch_set();
    if let Some(bass) = chord.bass {
        target.insert(bass.pitch_class());
    }
    target
}

/// The missing-pitch sets of the formula that can all be read as omitted
/// tones, as a 4096-bit table.
fn omissible_missing_sets(formula: &ChordFormula) -> (bits: Vec<u64>)
    requires
        formula.wf(),
    ensures
        bits@.len() == 64,
{
    let mut bits: Vec<u64> = Vec::new();
    let mut i: usize = 0;
    while i < 64
        invariant
            0 <= i <= 64,
            bits@.len() == i,
        decreases 64 - i,
    {
        bits.push(0);
        i += 1;
    }
    let members = formula.pitch_set().members();
    let count = members.len();
    let total: usize = 1usize << (count as usize);
    assert(total <= 4096) by (bit_vector)
        requires
            count <= 12,
            total == 1usize << count,
    ;
    let mut mask: usize = 0;
    while mask < total
        invariant
            0 <= mask <= total <= 4096,
            count == members@.len(),
            count <= 12,
            bits@.len() == 64,
            formula.wf(),
        decreases total - mask,
    {
        let mut missing = PitchSet::empty();
        let mut k: usize = 0;
        while k < count
            invariant
                0 <= k <= count <= 12,
                count == members@.len(),
                missing.wf(),
            decreases count - k,
        {
            if mask & (1usize << k) != 0 {
                missing.insert(members[k]);
            }
            k += 1;
        }
        if can_omit(missing, formula) {
            let idx = missing.bits as usize;
            let word = idx / 64;
            let bit: u64 = 1u64 << ((idx % 64) as u64);
            bits.set(word, bits[word] | bit);
        }
        mask += 1;
    }
    bits
}

/// Whether `missing` is in the table.
/// Bit `i` of a table of 64-bit words.
spec fn table_bit(bits: Seq<u64>, i: int) -> bool {
    bits[i / 64] & (1u64 << ((i % 64) as u64)) != 0
}

fn omissible_contains(bits: &Vec<u64>, missing: PitchSet) -> (b: bool)
    requires
        bits@.len() == 64,
        missing.wf(),
    ensures
        b == table_bit(bits@, missing.bits as int),
{
    let idx = missing.bits as usize;
    bits[idx / 64] & (1u64 << ((idx % 64) as u64)) != 0
}

/// The search state after some strings: what they sound and the running
/// terms of the score.
#[derive(Copy, Clone, Debug, Eq, PartialEq)]
struct PartialVoicingState {
    pitch_set: PitchSet,
    active_count: usize,
    has_open: bool,
    pitch_counts: [u8; 12],
    duplicate_pitch_cost: u32,
    non_open_count: usize,
    non_open_sum: u16,
    min_non_open: Option<u8>,
    max_non_open: Option<u8>,
    previous_fretted: Option<u8>,
    adjacent_jump_cost: u32,
    internal_mutes: u32,
    trailing_mutes_after_active: u8,
    first_played: Option<(usize, u8)>,
    lowest_pitch: Option<(i16, PitchClass)>,
}

/// The state's counts are bounded by the `k` strings it has seen.
spec fn state_wf(st: PartialVoicingState, k: int) -> bool {
    &&& 0 <= k <= 8
    &&& st.pitch_set.wf()
    &&& st.non_open_count <= st.active_count <= k
    &&& st.non_open_sum <= 30 * st.non_open_count
    &&& st.duplicate_pitch_cost <= 8 * k
    &&& st.adjacent_jump_cost <= 3136 * k
    &&& st.internal_mutes + st.trailing_mutes_after_active <= k
    &&& forall|p: int| 0 <= p < 12 ==> #[trigger] st.pitch_counts@[p] <= k
    &&& (st.min_non_open is Some) == (st.non_open_count > 0)
    &&& (st.max_non_open is Some) == (st.non_open_count > 0)
    &&& st.min_non_open matches Some(m) ==> 1 <= m <= 30 && st.non_open_sum >= m * st.non_open_count
    &&& st.max_non_open matches Some(m) ==> 1 <= m <= 30
    &&& (st.min_non_open matches Some(a) ==> (st.max_non_open matches Some(b) ==> a <= b))
    &&& st.previous_fretted matches Some(p) ==> p <= 30
    &&& st.first_played matches Some((s, f)) ==> s < k && f <= 30
}

/// The state's lowest and highest stopped frets are frets of the first `k`
/// strings.
spec fn extremes_played(st: PartialVoicingState, frets: Seq<Option<u8>>, k: int) -> bool {
    &&& st.min_non_open matches Some(m) ==> exists|i: int| 0 <= i < k && #[trigger] frets[i] == Some(m)
    &&& st.max_non_open matches Some(m) ==> exists|i: int| 0 <= i < k && #[trigger] frets[i] == Some(m)
}

/// The state's pitch set and lowest pitch are those of the first `k`
/// strings of `frets`.
spec fn state_matches(st: PartialVoicingState, t: Tuning, frets: Seq<Option<u8>>, k: int) -> bool {
    &&& forall|p: int| #[trigger] st.pitch_set.has(p) <==> frets_sound(t, frets.take(k), p)
    &&& (st.lowest_pitch is None) <==> (forall|i: int| 0 <= i < k ==> #[trigger] frets[i] is None)
    &&& st.lowest_pitch matches Some((a, pc)) ==> exists|i: int|
        #[trigger] lowest_string(t, frets.take(k), i) && a == t.spec_open_pitch(i) + frets[i]->0
            && pc.spec_value() == fret_pitch(t, i, frets[i]->0 as int)
}

/// The absolute pitch of the state's lowest string, when one sounds.
spec fn lowest_abs(st: PartialVoicingState) -> int {
    match st.lowest_pitch {
        Some((a, _)) => a as int,
        None => 0,
    }
}

/// The pitch class of the state's lowest string, when one sounds.
spec fn lowest_pc(st: PartialVoicingState) -> int {
    match st.lowest_pitch {
        Some((_, pc)) => pc.spec_value() as int,
        None => 0,
    }
}

/// One more string keeps the state's pitch set and lowest pitch in step
/// with the frets.
proof fn lemma_state_step(
    st: PartialVoicingState,
    r: PartialVoicingState,
    t: Tuning,
    frets: Seq<Option<u8>>,
    k: int,
)
    requires
        state_matches(st, t, frets, k),
        0 <= k < frets.len(),
        frets[k] is None ==> r.pitch_set == st.pitch_set && r.lowest_pitch == st.lowest_pitch,
        frets[k] matches Some(f) ==> {
            let abs = t.spec_open_pitch(k) + f;
            &&& forall|p: int| #[trigger] r.pitch_set.has(p) == (st.pitch_set.has(p) || p == fret_pitch(t, k, f as int))
            &&& if st.lowest_pitch is None || abs < lowest_abs(st) {
                r.lowest_pitch matches Some((a, pc)) && a == abs && pc.spec_value() == fret_pitch(t, k, f as int)
            } else {
                r.lowest_pitch == st.lowest_pitch
            }
        },
    ensures
        state_matches(r, t, frets, k + 1),
{
    let old_frets = frets.take(k);
    let new_frets = frets.take(k + 1);
    assert(new_frets == old_frets.push(frets[k]));
    assert forall|p: int| frets_sound(t, new_frets, p) == (frets_sound(t, old_frets, p) || (frets[k] matches Some(f)
        && fret_pitch(t, k, f as int) == p)) by {
        if frets_sound(t, new_frets, p) {
            let i = choose|i: int|
                0 <= i < new_frets.len() && (#[trigger] new_frets[i] matches Some(f) && fret_pitch(t, i, f as int) == p);
            if i < k {
                assert(old_frets[i] == new_frets[i]);
            }
        }
        if frets_sound(t, old_frets, p) {
            let i = choose|i: int|
                0 <= i < old_frets.len() && (#[trigger] old_frets[i] matches Some(f) && fret_pitch(t, i, f as int) == p);
            assert(new_frets[i] == old_frets[i]);
        }
        if frets[k] matches Some(f) && fret_pitch(t, k, f as int) == p {
            assert(new_frets[k] == frets[k]);
        }
    }
    assert((r.lowest_pitch is None) <==> (forall|i: int| 0 <= i < k + 1 ==> #[trigger] frets[i] is None));
    if let Some((a, pc)) = r.lowest_pitch {
        if let Some(f) = frets[k] {
            let abs = t.spec_open_pitch(k) + f;
            if st.lowest_pitch is None || abs < lowest_abs(st) {
                assert forall|j: int| 0 <= j < new_frets.len() && #[trigger] new_frets[j] is Some implies t.spec_open_pitch(j)
                    + new_frets[j]->0 >= t.spec_open_pitch(k) + new_frets[k]->0 by {
                    if j < k {
                        assert(old_frets[j] == new_frets[j]);
                        let i = choose|i: int|
                            #[trigger] lowest_string(t, old_frets, i) && lowest_abs(st) == t.spec_open_pitch(i)
                                + frets[i]->0 && lowest_pc(st) == fret_pitch(t, i, frets[i]->0 as int);
                        assert(old_frets[i] == frets[i]);
                    }
                }
                assert(lowest_string(t, new_frets, k));
            } else {
                let i = choose|i: int|
                    #[trigger] lowest_string(t, old_frets, i) && a == t.spec_open_pitch(i) + frets[i]->0
                        && pc.spec_value() == fret_pitch(t, i, frets[i]->0 as int);
                assert(old_frets[i] == frets[i]);
                assert forall|j: int| 0 <= j < new_frets.len() && #[trigger] new_frets[j] is Some implies t.spec_open_pitch(j)
                    + new_frets[j]->0 >= t.spec_open_pitch(i) + new_frets[i]->0 by {
                    if j < k {
                        assert(old_frets[j] == new_frets[j]);
                    }
                }
                assert(lowest_string(t, new_frets, i));
            }
        } else {
            let i = choose|i: int|
                #[trigger] lowest_string(t, old_frets, i) && a == t.spec_open_pitch(i) + frets[i]->0
                    && pc.spec_value() == fret_pitch(t, i, frets[i]->0 as int);
            assert(old_frets[i] == frets[i]);
            assert forall|j: int| 0 <= j < new_frets.len() && #[trigger] new_frets[j] is Some implies t.spec_open_pitch(j)
                + new_frets[j]->0 >= t.spec_open_pitch(i) + new_frets[i]->0 by {
                if j < k {
                    assert(old_frets[j] == new_frets[j]);
                }
            }
            assert(lowest_string(t, new_frets, i));
        }
    }
}

/// The state depends only on the strings it has seen.
proof fn lemma_state_prefix(
    st: PartialVoicingState,
    t: Tuning,
    a: Seq<Option<u8>>,
    b: Seq<Option<u8>>,
    k: int,
)
    requires
        state_matches(st, t, a, k),
        0 <= k <= a.len(),
        k <= b.len(),
        forall|i: int| 0 <= i < k ==> #[trigger] b[i] == a[i],
    ensures
        state_matches(st, t, b, k),
{
    assert(a.take(k) == b.take(k));
}

/// Before any string, nothing sounds.
proof fn lemma_state_start(st: PartialVoicingState, t: Tuning, frets: Seq<Option<u8>>)
    requires
        forall|p: int| !#[trigger] st.pitch_set.has(p),
        st.lowest_pitch is None,
    ensures
        state_matches(st, t, frets, 0),
{
    assert(frets.take(0).len() == 0);
}

/// The state before any string.
fn initial_state() -> (st: PartialVoicingState)
    ensures
        state_wf(st, 0),
        forall|p: int| !#[trigger] st.pitch_set.has(p),
        st.lowest_pitch is None,
{
    PartialVoicingState {
        pitch_set: PitchSet::empty(),
        active_count: 0,
        has_open: false,
        pitch_counts: [0u8; 12],
        duplicate_pitch_cost: 0,
        non_open_count: 0,
        non_open_sum: 0,
        min_non_open: None,
        max_non_open: None,
        previous_fretted: None,
        adjacent_jump_cost: 0,
        internal_mutes: 0,
        trailing_mutes_after_active: 0,
        first_played: None,
        lowest_pitch: None,
    }
}

/// The state after `string` plays `choice`.
fn advance(
    st: PartialVoicingState,
    search: &VoicingSearch,
    string: usize,
    choice: Option<u8>,
    Ghost(frets): Ghost<Seq<Option<u8>>>,
) -> (r: PartialVoicingState)
    requires
        search_wf(search),
        state_wf(st, string as int),
        string < search.n,
        choice matches Some(f) ==> f <= 30,
        state_matches(st, search.tuning, frets, string as int),
        string < frets.len(),
        frets[string as int] == choice,
        extremes_played(st, frets, string as int),
    ensures
        state_wf(r, string + 1),
        state_matches(r, search.tuning, frets, string + 1),
        extremes_played(r, frets, string + 1),
{
    let ghost before = st;
    let mut st = st;
    let fret = match choice {
        None => {
            if st.active_count > 0 {
                st.trailing_mutes_after_active = st.trailing_mutes_after_active + 1;
            }
            proof {
                lemma_state_step(before, st, search.tuning, frets, string as int);
            }
            return st;
        },
        Some(f) => f,
    };
    if st.active_count == 0 {
        st.first_played = Some((string, fret));
    } else {
        st.internal_mutes = st.internal_mutes + st.trailing_mutes_after_active as u32;
        st.trailing_mutes_after_active = 0;
    }
    st.active_count = st.active_count + 1;
    let absolute = search.tuning.absolute_pitch(string, fret);
    let pitch = search.tuning.pitch_at(string, fret);
    st.pitch_set.insert(pitch);
    let idx = pitch.value() as usize;
    let count = st.pitch_counts[idx];
    if count >= 2 {
        st.duplicate_pitch_cost = st.duplicate_pitch_cost + 8;
    }
    st.pitch_counts[idx] = count + 1;
    let lower = match st.lowest_pitch {
        None => true,
        Some((current, _)) => absolute < current,
    };
    if lower {
        st.lowest_pitch = Some((absolute, pitch));
    }
    proof {
        lemma_state_step(before, st, search.tuning, frets, string as int);
    }
    if fret == 0 {
        st.has_open = true;
        return st;
    }
    let old_count = st.non_open_count;
    let old_sum = st.non_open_sum;
    st.non_open_count = st.non_open_count + 1;
    st.non_open_sum = st.non_open_sum + fret as u16;
    let new_min = match st.min_non_open {
        Some(current) => if fret < current {
            fret
        } else {
            current
        },
        None => fret,
    };
    proof {
        if old_count > 0 {
            let m = st.min_non_open->0;
            assert(old_sum >= m * old_count);
            assert(new_min * old_count <= m * old_count) by (nonlinear_arith)
                requires
                    new_min <= m,
            ;
        } else {
            assert(new_min * old_count == 0) by (nonlinear_arith)
                requires
                    old_count == 0,
            ;
        }
        assert(st.non_open_sum >= new_min * st.non_open_count) by (nonlinear_arith)
            requires
                st.non_open_sum == old_sum + fret,
                old_sum >= new_min * old_count,
                new_min <= fret,
                st.non_open_count == old_count + 1,
        ;
    }
    st.min_non_open = Some(new_min);
    st.max_non_open = Some(
        match st.max_non_open {
            Some(current) => if fret > current {
                fret
            } else {
                current
            },
            None => fret,
        },
    );
    if let Some(previous) = st.previous_fretted {
        let jump = if fret > previous {
            fret - previous
        } else {
            previous - fret
        };
        if jump > 2 {
            let excess = (jump - 2) as u32;
            assert(excess * excess * 4 <= 3136) by (nonlinear_arith)
                requires
                    excess <= 28,
            ;
            st.adjacent_jump_cost = st.adjacent_jump_cost + excess * excess * 4;
        }
    }
    st.previous_fretted = Some(fret);
    st
}

/// Whether the stopped frets so far fit in the span.
/// The stopped frets seen so far span at most `max_span`.
spec fn span_ok(st: PartialVoicingState, max_span: int) -> bool {
    match (st.min_non_open, st.max_non_open) {
        (Some(min), Some(max)) => max <= min || max - min <= max_span,
        _ => true,
    }
}

fn span_valid(st: &PartialVoicingState, max_span: u8) -> (b: bool)
    ensures
        b == span_ok(*st, max_span as int),
{
    match (st.min_non_open, st.max_non_open) {
        (Some(min), Some(max)) => if max > min {
            max - min <= max_span
        } else {
            true
        },
        _ => true,
    }
}

/// Whether the strings from `next` on can still complete a voicing: the
/// span holds, a required bass can still come lowest, enough strings remain
/// for the tones that cannot be omitted, every required slash bass can still
/// sound, and what may stay missing can be read as omissions.
/// The checks of [`partial_voicing_can_complete`] that read only what has
/// been played and what the strings left can sound: the span, a required
/// bass, and the wanted pitches outside the formula.
fn partial_voicing_may_sound(search: &VoicingSearch, next: usize, st: &PartialVoicingState) -> (r: bool)
    requires
        search_wf(search),
        next <= search.n,
        state_wf(*st, next as int),
    ensures
        r == may_sound_of(*search, next as int, *st),
{
    if !span_valid(st, search.options.max_span) {
        return false;
    }
    if let Some(required) = search.bass_rule.required() {
        if let Some((lowest, lowest_class)) = st.lowest_pitch {
            if lowest_class.value() != required.value() {
                let blocked = match search.suffix_required_bass_min[next] {
                    None => true,
                    Some(bass_pitch) => bass_pitch >= lowest,
                };
                if blocked {
                    return false;
                }
            }
        }
    }
    let available = st.pitch_set.union(search.suffix_sets[next]);
    let missing_required = search.target.difference(available);
    proof {
        lemma_outside_bits(missing_required, search.formula_target);
    }
    missing_required.bits & !search.formula_target.bits == 0
}

/// The span, bass and outside-pitch checks of [`can_complete_of`].
spec fn may_sound_of(s: VoicingSearch, next: int, st: PartialVoicingState) -> bool {
    &&& span_ok(st, s.options.max_span as int)
    &&& !(s.bass_rule matches BassRule::Required(q) && st.lowest_pitch matches Some((lowest, pc)) && pc.spec_value()
        != q.spec_value() && match s.suffix_required_bass_min@[next] {
        None => true,
        Some(b) => b >= lowest,
    })
    &&& !exists|p: int| #[trigger] s.target.has(p) && !available_at(s, next, st, p) && !s.formula_target.has(p)
}

/// A full fretting `f` follows the first `k` strings of `prefix` and takes a
/// choice of the search on every later string.
spec fn completes(s: &VoicingSearch, prefix: Seq<Option<u8>>, k: int, f: [Option<u8>; 8]) -> bool {
    &&& forall|i: int| 0 <= i < k ==> #[trigger] f@[i] == prefix[i]
    &&& forall|i: int| k <= i < s.n ==> s.per_string@[i]@.contains(#[trigger] f@[i])
    &&& forall|i: int| s.n <= i < 8 ==> #[trigger] f@[i] is None
}

/// The checks that keep a partial fretting never reject one whose
/// completion the search keeps.
proof fn lemma_may_sound(s: &VoicingSearch, f: [Option<u8>; 8], j: int, st: PartialVoicingState)
    requires
        search_wf(s),
        0 <= j <= s.n,
        state_wf(st, j),
        state_matches(st, s.tuning, f@, j),
        extremes_played(st, f@, j),
        completes(s, f@, j, f),
        buildable(f, s),
    ensures
        may_sound_of(*s, j, st),
{
    let t = s.tuning;
    let n = s.n as int;
    let sounded = f@.take(n);
    if let (Some(lo), Some(hi)) = (st.min_non_open, st.max_non_open) {
        let a = choose|i: int| 0 <= i < j && #[trigger] f@[i] == Some(hi);
        let b = choose|i: int| 0 <= i < j && #[trigger] f@[i] == Some(lo);
        assert(f@[a] == Some(hi) && f@[b] == Some(lo));
    }
    assert forall|p: int| #[trigger] s.target.has(p) && !s.formula_target.has(p) implies available_at(*s, j, st, p) by {
        assert(frets_sound(t, sounded, p));
        let i = choose|i: int|
            0 <= i < sounded.len() && (#[trigger] sounded[i] matches Some(x) && fret_pitch(t, i, x as int) == p);
        let x = sounded[i]->0;
        if i < j {
            assert(f@.take(j)[i] == sounded[i]);
            assert(frets_sound(t, f@.take(j), p));
        } else {
            let k = choose|k: int| 0 <= k < s.per_string@[i]@.len() && s.per_string@[i]@[k] == f@[i];
            assert(covered_choice(s.suffix_sets@, s.suffix_required_bass_min@, t, s.bass_rule, j, i, s.per_string@[i]@[k]));
        }
    }
    if let BassRule::Required(q) = s.bass_rule {
        if let Some((lowest, pc)) = st.lowest_pitch {
            if pc.spec_value() != q.spec_value() {
                let i0 = choose|i: int|
                    #[trigger] lowest_string(t, f@.take(j), i) && lowest == t.spec_open_pitch(i) + f@[i]->0
                        && pc.spec_value() == fret_pitch(t, i, f@[i]->0 as int);
                let l = choose|l: int|
                    #[trigger] lowest_string(t, sounded, l) && fret_pitch(t, l, sounded[l]->0 as int) == q.spec_value();
                assert(f@.take(j)[i0] == f@[i0]);
                assert(sounded[i0] == f@[i0]);
                assert(sounded[l] == f@[l]);
                if l < j {
                    assert(f@.take(j)[l] == f@[l]);
                    assert(t.spec_open_pitch(l) + f@[l]->0 >= lowest);
                    assert(t.spec_open_pitch(l) + f@[l]->0 <= lowest);
                    assert(false);
                } else {
                    let k = choose|k: int| 0 <= k < s.per_string@[l]@.len() && s.per_string@[l]@[k] == f@[l];
                    assert(covered_choice(s.suffix_sets@, s.suffix_required_bass_min@, t, s.bass_rule, j, l, s.per_string@[l]@[k]));
                    assert(t.spec_open_pitch(l) + f@[l]->0 <= lowest);
                    if t.spec_open_pitch(l) + f@[l]->0 == lowest {
                        assert(false);
                    }
                }
            }
        }
    }
}

fn partial_voicing_can_complete(search: &VoicingSearch, next: usize, st: &PartialVoicingState) -> (r: bool)
    requires
        search_wf(search),
        next <= search.n,
        state_wf(*st, next as int),
    ensures
        r == can_complete_of(*search, next as int, *st),
{
    if !span_valid(st, search.options.max_span) {
        return false;
    }
    if let Some(required) = search.bass_rule.required() {
        if let Some((lowest, lowest_class)) = st.lowest_pitch {
            if lowest_class.value() != required.value() {
                let blocked = match search.suffix_required_bass_min[next] {
                    None => true,
                    Some(bass_pitch) => bass_pitch >= lowest,
                };
                if blocked {
                    return false;
                }
            }
        }
    }
    let remaining = search.n - next;
    let not_played = search.non_omissible_pitches.difference(st.pitch_set);
    proof {
        lemma_set_unique(not_played);
    }
    if not_played.len() > remaining {
        return false;
    }
    let available = st.pitch_set.union(search.suffix_sets[next]);
    let missing_required = search.target.difference(available);
    proof {
        lemma_outside_bits(missing_required, search.formula_target);
    }
    if missing_required.bits & !search.formula_target.bits != 0 {
        return false;
    }
    let missing_formula = search.formula_target.difference(available);
    proof {
        lemma_set_unique(missing_formula);
    }
    omissible_contains(&search.omissible, missing_formula)
}

/// A set of pitch classes is the only one with its members.
proof fn lemma_set_unique(a: PitchSet)
    requires
        a.wf(),
    ensures
        forall|b: PitchSet| b.wf() && (forall|p: int| #[trigger] b.has(p) == a.has(p)) ==> b == a,
{
    assert forall|b: PitchSet| b.wf() && (forall|p: int| #[trigger] b.has(p) == a.has(p)) implies b == a by {
        assert forall|q: u16| q < 12 implies bit_set(b.bits, q) == bit_set(a.bits, q) by {
            assert(b.has(q as int) == a.has(q as int));
        }
        lemma_bits_ext(b.bits, a.bits);
    }
}

/// `a` has a member outside `b` exactly when `a`'s bits meet `b`'s
/// complement.
proof fn lemma_outside_bits(a: PitchSet, b: PitchSet)
    requires
        a.wf(),
        b.wf(),
    ensures
        (a.bits & !b.bits != 0) == exists|p: int| #[trigger] a.has(p) && !b.has(p),
{
    let x = a.bits;
    let y = b.bits;
    if exists|p: int| #[trigger] a.has(p) && !b.has(p) {
        let p = choose|p: int| #[trigger] a.has(p) && !b.has(p);
        let q = p as u16;
        assert(x & (1u16 << q) != 0 && y & (1u16 << q) == 0 ==> x & !y != 0) by (bit_vector);
    } else {
        assert forall|q: u16| q < 12 && bit_set(x, q) implies bit_set(y, q) by {
            assert(a.has(q as int) ==> b.has(q as int));
        }
        assert(bit_set(x, 0) ==> bit_set(y, 0));
        assert(bit_set(x, 1) ==> bit_set(y, 1));
        assert(bit_set(x, 2) ==> bit_set(y, 2));
        assert(bit_set(x, 3) ==> bit_set(y, 3));
        assert(bit_set(x, 4) ==> bit_set(y, 4));
        assert(bit_set(x, 5) ==> bit_set(y, 5));
        assert(bit_set(x, 6) ==> bit_set(y, 6));
        assert(bit_set(x, 7) ==> bit_set(y, 7));
        assert(bit_set(x, 8) ==> bit_set(y, 8));
        assert(bit_set(x, 9) ==> bit_set(y, 9));
        assert(bit_set(x, 10) ==> bit_set(y, 10));
        assert(bit_set(x, 11) ==> bit_set(y, 11));
        assert(x & !y == 0) by (bit_vector)
            requires
                x < 4096,
                x & (1u16 << 0u16) != 0 ==> y & (1u16 << 0u16) != 0,
                x & (1u16 << 1u16) != 0 ==> y & (1u16 << 1u16) != 0,
                x & (1u16 << 2u16) != 0 ==> y & (1u16 << 2u16) != 0,
                x & (1u16 << 3u16) != 0 ==> y & (1u16 << 3u16) != 0,
                x & (1u16 << 4u16) != 0 ==> y & (1u16 << 4u16) != 0,
                x & (1u16 << 5u16) != 0 ==> y & (1u16 << 5u16) != 0,
                x & (1u16 << 6u16) != 0 ==> y & (1u16 << 6u16) != 0,
                x & (1u16 << 7u16) != 0 ==> y & (1u16 << 7u16) != 0,
                x & (1u16 << 8u16) != 0 ==> y & (1u16 << 8u16) != 0,
                x & (1u16 << 9u16) != 0 ==> y & (1u16 << 9u16) != 0,
                x & (1u16 << 10u16) != 0 ==> y & (1u16 << 10u16) != 0,
                x & (1u16 << 11u16) != 0 ==> y & (1u16 << 11u16) != 0,
        ;
    }
}

/// Pitch classes that the strings played so far or the strings left can
/// sound.
spec fn available_at(s: VoicingSearch, next: int, st: PartialVoicingState, p: int) -> bool {
    st.pitch_set.has(p) || s.suffix_sets@[next].has(p)
}

/// Whether a partial fretting can still become a voicing: its span is
/// within the limit; a required bass is sounded lowest or can still be
/// played below; the strings left can sound the non-omissible pitches not
/// yet played; every wanted pitch outside the formula can still sound; and
/// the formula pitches that cannot sound form an omissible set.
spec fn can_complete_of(s: VoicingSearch, next: int, st: PartialVoicingState) -> bool {
    &&& span_ok(st, s.options.max_span as int)
    &&& !(s.bass_rule matches BassRule::Required(q) && st.lowest_pitch matches Some((lowest, pc)) && pc.spec_value()
        != q.spec_value() && match s.suffix_required_bass_min@[next] {
        None => true,
        Some(b) => b >= lowest,
    })
    &&& exists|d: PitchSet|
        d.wf() && (forall|p: int| #[trigger] d.has(p) == (s.non_omissible_pitches.has(p) && !st.pitch_set.has(p)))
            && d.size() <= s.n - next
    &&& !exists|p: int| #[trigger] s.target.has(p) && !available_at(s, next, st, p) && !s.formula_target.has(p)
    &&& exists|m: PitchSet|
        m.wf() && (forall|p: int| #[trigger] m.has(p) == (s.formula_target.has(p) && !available_at(s, next, st, p)))
            && table_bit(s.omissible@, m.bits as int)
}

/// The lowest stopped fret seen or still possible, doubled when no string
/// seen or to come is open.
spec fn position_floor_of(search: VoicingSearch, next: int, st: PartialVoicingState) -> int {
    let mult: int = if st.has_open || search.suffix_has_open@[next] {
        1
    } else {
        2
    };
    match (st.min_non_open, search.suffix_min_non_open@[next]) {
        (Some(a), Some(b)) => (if a < b {
            a as int
        } else {
            b as int
        }) * mult,
        (Some(a), None) => a * mult,
        (None, Some(b)) => b * mult,
        (None, None) => 0,
    }
}

/// The score floor before bonuses: the position floor, the relative fret
/// and span costs and the duplicate, jump and inner-mute costs so far, and
/// the unplayed-string cost if every remaining string sounds.
spec fn base_floor_of(search: VoicingSearch, next: int, st: PartialVoicingState) -> int {
    position_floor_of(search, next, st) + match st.min_non_open {
        Some(min) => st.non_open_sum - min * st.non_open_count,
        None => 0,
    } + match (st.min_non_open, st.max_non_open) {
        (Some(min), Some(max)) => (max - min) * (max - min),
        _ => 0,
    } + st.duplicate_pitch_cost + st.adjacent_jump_cost + st.internal_mutes * 4
        + crate::scoring::active_string_cost_of(st.active_count + (search.n - next), search.n as int)
}

/// Lower bound on the position cost of any completion.
fn partial_position_cost_floor(search: &VoicingSearch, next: usize, st: &PartialVoicingState) -> (c:
    u32)
    requires
        search_wf(search),
        next <= search.n,
        state_wf(*st, next as int),
    ensures
        c <= 60,
        c == position_floor_of(*search, next as int, *st),
{
    let future = search.suffix_min_non_open[next];
    let min: u8 = match (st.min_non_open, future) {
        (Some(a), Some(b)) => if a < b {
            a
        } else {
            b
        },
        (Some(a), None) => a,
        (None, Some(b)) => b,
        (None, None) => {
            return 0;
        },
    };
    let multiplier: u32 = if st.has_open || search.suffix_has_open[next] {
        1
    } else {
        2
    };
    min as u32 * multiplier
}

/// Lower bound on the score of any completion, before bonuses.
fn partial_base_score_floor(search: &VoicingSearch, next: usize, st: &PartialVoicingState) -> (c: u32)
    requires
        search_wf(search),
        next <= search.n,
        state_wf(*st, next as int),
    ensures
        c <= 30000,
        c == base_floor_of(*search, next as int, *st),
{
    let position = partial_position_cost_floor(search, next, st);
    let relative: u32 = match st.min_non_open {
        Some(min) => st.non_open_sum as u32 - min as u32 * st.non_open_count as u32,
        None => 0,
    };
    let span: u32 = match (st.min_non_open, st.max_non_open) {
        (Some(min), Some(max)) => {
            let d = (max - min) as u32;
            assert(d * d <= 841) by (nonlinear_arith)
                requires
                    d <= 29,
            ;
            d * d
        },
        _ => 0,
    };
    let remaining = search.n - next;
    position + relative + span + st.duplicate_pitch_cost + st.adjacent_jump_cost + st.internal_mutes
        * 4 + crate::scoring::active_string_cost(st.active_count + remaining, search.n)
}

/// Whether some tone of the formula has `degree`.
fn formula_degree(formula: &ChordFormula, degree: u8) -> (b: bool)
    ensures
        b == crate::scoring::tones_degree(formula.tones@, degree as int),
{
    formula.has_degree(degree)
}

/// Upper bound on the bonuses any completion can earn.
/// Whether the highest stopped fret so far is at most `limit`.
spec fn max_at_most_of(st: PartialVoicingState, limit: int) -> bool {
    match st.max_non_open {
        Some(m) => m <= limit,
        None => true,
    }
}

/// The open-string bonuses a completion of `st` could still earn.
spec fn open_bonus_bound(s: VoicingSearch, next: int, st: PartialVoicingState) -> int {
    let n = s.n as int;
    let max_active = st.active_count + (n - next);
    let min_active = crate::scoring::min_active_of(n);
    let open_position = if max_at_most_of(st, 3) && max_active >= min_active {
        if max_active == n {
            22int
        } else if max_active + 1 == n {
            10
        } else {
            4
        }
    } else {
        0
    };
    let root_bass = if s.bass_rule != BassRule::Any && max_at_most_of(st, 4) {
        if n >= 6 {
            if max_active >= 5 {
                18int
            } else if max_active == 4 {
                14
            } else {
                8
            }
        } else if max_active == n {
            18
        } else if max_active + 1 == n {
            14
        } else {
            8
        }
    } else {
        0
    };
    let first_open = match st.first_played {
        None => true,
        Some((_, f)) => f == 0,
    };
    let min_high = match st.min_non_open {
        None => true,
        Some(m) => m >= 5,
    };
    let bass_grip = if first_open && min_high {
        20int
    } else {
        0
    };
    let instrument = match s.tuning.spec_instrument() {
        Instrument::Guitar => if n != 6 {
            0int
        } else {
            (if max_active >= 4 && max_at_most_of(st, 3) {
                8int
            } else {
                0
            }) + (if max_active >= 5 && max_at_most_of(st, 5) && crate::scoring::tones_degree(s.formula.tones@, 9)
                && !crate::scoring::tones_degree(s.formula.tones@, 7) {
                24int
            } else {
                0
            })
        },
        Instrument::Ukulele => if n == 4 && max_active == n && max_at_most_of(st, 4) {
            12
        } else {
            0
        },
        _ => 0,
    };
    if st.has_open || s.suffix_has_open@[next] {
        open_position + root_bass + bass_grip + instrument
    } else {
        0
    }
}

/// The closed-grip bonuses a completion of `st` could still earn.
spec fn closed_bonus_bound(s: VoicingSearch, next: int, st: PartialVoicingState) -> int {
    let n = s.n as int;
    let max_active = st.active_count + (n - next);
    let min_active = crate::scoring::min_active_of(n);
    let low_enough = match st.min_non_open {
        None => true,
        Some(m) => m <= 3 || match s.suffix_min_non_open@[next] {
            Some(future) => future <= 3,
            None => false,
        },
    };
    if st.has_open {
        0
    } else {
        (if st.internal_mutes == 0 && max_active >= min_active {
            30int
        } else {
            0
        }) + (if st.internal_mutes == 0 && max_active == n {
            12int
        } else {
            0
        }) + (if max_active + 1 >= n && low_enough {
            8int
        } else {
            0
        }) + (if st.internal_mutes <= 1 && crate::scoring::upper_tones(s.formula.tones@) && st.active_count <= 4
            && max_active >= 3 {
            14int
        } else {
            0
        })
    }
}

/// The larger of the open and the closed bonus bounds.
spec fn max_bonus_of(s: VoicingSearch, next: int, st: PartialVoicingState) -> int {
    let o = open_bonus_bound(s, next, st);
    let c = closed_bonus_bound(s, next, st);
    if o > c {
        o
    } else {
        c
    }
}

#[verifier::rlimit(40)]
fn max_possible_bonus(search: &VoicingSearch, next: usize, st: &PartialVoicingState) -> (b: u32)
    requires
        search_wf(search),
        next <= search.n,
        state_wf(*st, next as int),
    ensures
        b <= 200,
        b == max_bonus_of(*search, next as int, *st),
{
    let n = search.n;
    let can_play_open = st.has_open || search.suffix_has_open[next];
    let max_active = st.active_count + (n - next);
    let min_active: usize = if n >= 6 {
        4
    } else if n > 0 {
        n - 1
    } else {
        0
    };
    let max_at_most = |limit: u8| -> (r: bool)
        ensures
            r == match st.max_non_open {
                Some(m) => m <= limit,
                None => true,
            },
        {
            match st.max_non_open {
                Some(m) => m <= limit,
                None => true,
            }
        };
    let mut open_bonus: u32 = 0;
    if can_play_open {
        if max_at_most(3) && max_active >= min_active {
            open_bonus += if max_active == n {
                22
            } else if max_active + 1 == n {
                10
            } else {
                4
            };
        }
        if search.bass_rule.preferred().is_some() && max_at_most(4) {
            open_bonus += if n >= 6 {
                if max_active >= 5 {
                    18
                } else if max_active == 4 {
                    14
                } else {
                    8
                }
            } else if max_active == n {
                18
            } else if max_active + 1 == n {
                14
            } else {
                8
            };
        }
        let first_open = match st.first_played {
            None => true,
            Some((_, f)) => f == 0,
        };
        let min_high = match st.min_non_open {
            None => true,
            Some(m) => m >= 5,
        };
        if first_open && min_high {
            open_bonus += 20;
        }
        open_bonus += match search.tuning.instrument() {
            Instrument::Guitar => {
                if n != 6 {
                    0
                } else {
                    let mut bonus: u32 = 0;
                    if max_active >= 4 && max_at_most(3) {
                        bonus += 8;
                    }
                    if max_active >= 5 && max_at_most(5) && formula_degree(&search.formula, 9)
                        && !formula_degree(&search.formula, 7) {
                        bonus += 24;
                    }
                    bonus
                }
            },
            Instrument::Ukulele => {
                if n == 4 && max_active == n && max_at_most(4) {
                    12
                } else {
                    0
                }
            },
            _ => 0,
        };
    }
    assert(open_bonus == open_bonus_bound(*search, next as int, *st));
    let mut closed_bonus: u32 = 0;
    if !st.has_open {
        if st.internal_mutes == 0 && max_active >= min_active {
            closed_bonus += 30;
        }
        if st.internal_mutes == 0 && max_active == n {
            closed_bonus += 12;
        }
        let low_enough = match st.min_non_open {
            None => true,
            Some(m) => m <= 3 || match search.suffix_min_non_open[next] {
                Some(future) => future <= 3,
                None => false,
            },
        };
        if max_active + 1 >= n && low_enough {
            closed_bonus += 8;
        }
        let reaches_shell = st.active_count <= 4 && max_active >= 3;
        if st.internal_mutes <= 1 && crate::scoring::has_upper_structure(&search.formula)
            && reaches_shell {
            closed_bonus += 14;
        }
    }
    assert(closed_bonus == closed_bonus_bound(*search, next as int, *st));
    if open_bonus > closed_bonus {
        open_bonus
    } else {
        closed_bonus
    }
}

/// Lower bound on the final score of any completion.
fn partial_voicing_score_floor(search: &VoicingSearch, next: usize, st: &PartialVoicingState) -> (f: u32)
    requires
        search_wf(search),
        next <= search.n,
        state_wf(*st, next as int),
    ensures
        f == crate::scoring::sat_sub(
            base_floor_of(*search, next as int, *st),
            max_bonus_of(*search, next as int, *st),
        ),
{
    partial_base_score_floor(search, next, st).saturating_sub(max_possible_bonus(search, next, st))
}

/// Collects candidates: every one up to a cap, or the ones that can still
/// reach a curated list of `limit`.
struct VoicingCollector {
    all: bool,
    limit: usize,
    voicings: Vec<VoicingCandidate>,
    exceeded: bool,
    best_scores: Vec<u32>,
    ceiling: u32,
}

/// The collector keeps only acceptable candidates, within its cap.
spec fn collector_wf(c: &VoicingCollector, s: &VoicingSearch) -> bool {
    &&& forall|i: int| 0 <= i < c.voicings@.len() ==> candidate_ok(#[trigger] c.voicings@[i], s)
    &&& c.all ==> c.voicings@.len() <= c.limit
    &&& !c.all ==> c.best_scores@.len() <= c.limit
}

/// Where `score` goes among sorted scores: after every leading score not
/// above it, counting from `i`.
spec fn score_place(bs: Seq<u32>, score: u32, i: int) -> int
    decreases bs.len() - i,
{
    if i < 0 || i >= bs.len() || bs[i] > score {
        i
    } else {
        score_place(bs, score, i + 1)
    }
}

/// The best scores after recording `score`, keeping at most `limit`.
spec fn best_after(bs: Seq<u32>, score: u32, limit: int) -> Seq<u32> {
    let idx = score_place(bs, score, 0);
    if limit == 0 {
        bs
    } else if bs.len() < limit {
        bs.insert(idx, score)
    } else if idx < limit {
        bs.insert(idx, score).drop_last()
    } else {
        bs
    }
}

/// The ceiling over the best scores: none when `limit` is 0, the largest
/// value until `limit` scores are known, else the `limit`-th plus the widest
/// diversity window.
spec fn ceiling_of(bs: Seq<u32>, limit: int) -> u32 {
    if limit == 0 {
        0
    } else if bs.len() < limit {
        u32::MAX
    } else if bs[limit - 1] + MAX_DIVERSITY_SCORE_WINDOW > u32::MAX {
        u32::MAX
    } else {
        (bs[limit - 1] + MAX_DIVERSITY_SCORE_WINDOW) as u32
    }
}

impl VoicingCollector {
    fn new(all: bool, limit: usize) -> (c: Self)
        ensures
            c.all == all,
            c.limit == limit,
            c.voicings@.len() == 0,
            c.best_scores@.len() == 0,
    {
        VoicingCollector {
            all,
            limit,
            voicings: Vec::new(),
            exceeded: false,
            best_scores: Vec::new(),
            ceiling: u32::MAX,
        }
    }

    /// Whether the search can stop: the cap of an exhaustive search was hit.
    fn should_stop(&self) -> (b: bool)
        ensures
            b == (self.all && self.exceeded),
    {
        self.all && self.exceeded
    }

    /// Scores above this cannot reach the result.
    fn score_ceiling(&self) -> (c: u32)
        ensures
            c == (if self.all {
                u32::MAX
            } else {
                self.ceiling
            }),
    {
        if self.all {
            u32::MAX
        } else {
            self.ceiling
        }
    }

    /// Records a score among the best `limit` scores, kept in order.
    fn update_best_scores(&mut self, score: u32)
        requires
            old(self).best_scores@.len() <= old(self).limit,
        ensures
            final(self).best_scores@.len() <= final(self).limit,
            final(self).limit == old(self).limit,
            final(self).all == old(self).all,
            final(self).voicings == old(self).voicings,
            final(self).exceeded == old(self).exceeded,
            final(self).ceiling == old(self).ceiling,
            final(self).best_scores@ == best_after(old(self).best_scores@, score, old(self).limit as int),
    {
        if self.limit == 0 {
            return;
        }
        let mut idx: usize = 0;
        while idx < self.best_scores.len() && self.best_scores[idx] <= score
            invariant
                0 <= idx <= self.best_scores@.len(),
                self.best_scores@ == old(self).best_scores@,
                score_place(self.best_scores@, score, 0) == score_place(self.best_scores@, score, idx as int),
            decreases self.best_scores@.len() - idx,
        {
            idx += 1;
        }
        if self.best_scores.len() < self.limit {
            self.best_scores.insert(idx, score);
        } else if idx < self.limit {
            self.best_scores.insert(idx, score);
            self.best_scores.pop();
        }
    }

    /// The ceiling: the `limit`-th best score plus the widest diversity
    /// window, since the ranker never reaches past it.
    fn update_ceiling(&mut self)
        requires
            old(self).best_scores@.len() <= old(self).limit,
        ensures
            final(self).best_scores == old(self).best_scores,
            final(self).limit == old(self).limit,
            final(self).all == old(self).all,
            final(self).voicings == old(self).voicings,
            final(self).exceeded == old(self).exceeded,
            final(self).ceiling == ceiling_of(old(self).best_scores@, old(self).limit as int),
    {
        let next = if self.limit == 0 {
            0
        } else if self.best_scores.len() < self.limit {
            u32::MAX
        } else {
            self.best_scores[self.limit - 1].saturating_add(MAX_DIVERSITY_SCORE_WINDOW)
        };
        self.ceiling = next;
    }

    /// Offers a candidate.
    fn insert(&mut self, c: VoicingCandidate, Ghost(s): Ghost<&VoicingSearch>)
        requires
            collector_wf(old(self), s),
            candidate_ok(c, s),
        ensures
            collector_wf(final(self), s),
            final(self).all == old(self).all,
            final(self).limit == old(self).limit,
            old(self).all ==> final(self).best_scores == old(self).best_scores && final(self).ceiling
                == old(self).ceiling && if old(self).voicings@.len() >= old(self).limit {
                final(self).voicings@ == old(self).voicings@ && final(self).exceeded
            } else {
                final(self).voicings@ == old(self).voicings@.push(c) && final(self).exceeded
                    == old(self).exceeded
            },
            !old(self).all && old(self).limit == 0 ==> *final(self) == *old(self),
            !old(self).all && old(self).limit > 0 ==> {
                let bs = best_after(old(self).best_scores@, c.score, old(self).limit as int);
                &&& final(self).best_scores@ == bs
                &&& final(self).ceiling == ceiling_of(bs, old(self).limit as int)
                &&& final(self).exceeded == old(self).exceeded
                &&& final(self).voicings@ == if c.score <= ceiling_of(bs, old(self).limit as int) {
                    old(self).voicings@.push(c)
                } else {
                    old(self).voicings@
                }
            },
    {
        if self.all {
            if self.voicings.len() >= self.limit {
                self.exceeded = true;
                return;
            }
            self.voicings.push(c);
            return;
        }
        if self.limit == 0 {
            return;
        }
        self.update_best_scores(c.score);
        self.update_ceiling();
        if c.score <= self.ceiling {
            self.voicings.push(c);
        }
    }
}

/// Builds a candidate from a complete fretting, if it is a voicing of the
/// chord: something sounds, the span holds, every missing pitch is an
/// omissible chord tone, and a required bass is lowest.
/// The omissions and score a candidate is built with are those its frets
/// give.
proof fn lemma_build_scored(
    search: &VoicingSearch,
    frets: [Option<u8>; 8],
    st: PartialVoicingState,
    missing_formula: PitchSet,
    mask: u8,
    omissions: Seq<InferredOmission>,
    profile: FretProfile,
    score: u32,
)
    requires
        search_wf(search),
        state_matches(st, search.tuning, frets@, search.n as int),
        forall|i: int| search.n <= i < 8 ==> #[trigger] frets@[i] is None,
        missing_formula.wf(),
        forall|p: int| #[trigger] missing_formula.has(p) == (search.formula_target.has(p) && !st.pitch_set.has(p)),
        missing_formula.bits == 0 ==> mask == 0,
        missing_formula.bits != 0 ==> mask == omission_mask_for(search.formula.tones@, missing_formula.pitches()),
        omissions == omission_seq(mask),
        profile_of(profile, frets@, search.n as int),
        profile_wf(profile, search.n as int),
        exists|b: VoicingScoreBreakdown|
            #[trigger] breakdown_of(b, frets@, search.tuning, search.bass_rule, search.formula.tones@, omissions, search.n as int, profile)
                && score == b.total,
    ensures
        ({
            let sounded = frets@.take(search.n as int);
            let missing = Set::new(
                |p: int| search.formula_target.pitches().contains(p) && !frets_sound(search.tuning, sounded, p),
            );
            &&& exists|b: VoicingScoreBreakdown|
                #[trigger] voicing_breakdown_of(
                    search.tuning,
                    search.bass_rule,
                    search.formula.tones@,
                    search.formula_target.pitches(),
                    sounded,
                    b,
                ) && score == b.total
            &&& omissions == omission_seq(missing_mask(search.formula.tones@, missing) as u8)
        }),
{
    let n = search.n as int;
    let sounded = frets@.take(n);
    let spec_missing = Set::new(
        |p: int| search.formula_target.pitches().contains(p) && !frets_sound(search.tuning, sounded, p),
    );
    assert(missing_formula.pitches() =~= spec_missing);
    if missing_formula.bits != 0 {
        lemma_some_member(missing_formula);
        let q = choose|q: int| #[trigger] missing_formula.has(q);
        assert(spec_missing.contains(q));
    } else {
        assert forall|p: int| !missing_formula.has(p) by {
            if 0 <= p < 12 {
                let q = p as u16;
                assert(!bit_set(0u16, q)) by (bit_vector);
            }
        }
        assert(spec_missing =~= Set::<int>::empty());
    }
    assert(padded(sounded) =~= frets@);
    let b = choose|b: VoicingScoreBreakdown|
        #[trigger] breakdown_of(b, frets@, search.tuning, search.bass_rule, search.formula.tones@, omissions, n, profile)
            && score == b.total;
    assert(omission_seq(missing_mask(search.formula.tones@, spec_missing) as u8) == omissions);
    assert(profile_of(profile, padded(sounded), n));
    assert(breakdown_of(
        b,
        padded(sounded),
        search.tuning,
        search.bass_rule,
        search.formula.tones@,
        omission_seq(missing_mask(search.formula.tones@, spec_missing) as u8),
        n,
        profile,
    ));
    assert(voicing_breakdown_of(
        search.tuning,
        search.bass_rule,
        search.formula.tones@,
        search.formula_target.pitches(),
        sounded,
        b,
    ));
}

/// A fretting that the search keeps: some string sounds, the stopped frets
/// lie within the span, every wanted pitch outside the formula sounds, and
/// it sounds the search's chord.
spec fn buildable(frets: [Option<u8>; 8], s: &VoicingSearch) -> bool {
    let sounded = frets@.take(s.n as int);
    &&& sounding_count(frets@, s.n as int) > 0
    &&& span_within(frets, s.n as int, s.options.max_span as int)
    &&& !exists|p: int|
        #[trigger] s.target.has(p) && !frets_sound(s.tuning, sounded, p) && !s.formula_target.has(p)
    &&& sounds_search(sounded, s)
}

/// A set with bits set has a member.
proof fn lemma_some_member(a: PitchSet)
    requires
        a.wf(),
        a.bits != 0,
    ensures
        exists|p: int| #[trigger] a.has(p),
{
    if forall|p: int| !#[trigger] a.has(p) {
        assert forall|q: u16| q < 12 implies bit_set(a.bits, q) == bit_set(0u16, q) by {
            assert(!a.has(q as int));
            assert(!bit_set(0u16, q)) by (bit_vector);
        }
        lemma_bits_ext(a.bits, 0u16);
    }
}

fn build_voicing_candidate(frets: [Option<u8>; 8], search: &VoicingSearch, st: &PartialVoicingState) -> (r:
    Option<VoicingCandidate>)
    requires
        search_wf(search),
        frets_ok(frets, search.n as int),
        frets_within(frets, search.n as int, search.options.min_fret as int, search.options.max_fret as int),
        state_wf(*st, search.n as int),
        state_matches(*st, search.tuning, frets@, search.n as int),
        forall|i: int| 0 <= i < search.n ==> (#[trigger] frets@[i] matches Some(f) ==> search.target.has(
            fret_pitch(search.tuning, i, f as int),
        )),
        forall|i: int| search.n <= i < 8 ==> #[trigger] frets@[i] is None,
    ensures
        r matches Some(c) ==> candidate_ok(c, search),
        r matches Some(c) ==> c.frets == frets,
        r is Some <==> buildable(frets, search),
{
    let n = search.n;
    let profile = fret_profile(&frets, n);
    if profile.active_count == 0 {
        return None;
    }
    if let Some(span) = profile.fret_span() {
        if span > search.options.max_span {
            proof {
                let a = profile.max_non_open->0;
                let b = profile.min_non_open->0;
                let i = choose|i: int| 0 <= i < n && #[trigger] frets@[i] == Some(a);
                let j = choose|j: int| 0 <= j < n && #[trigger] frets@[j] == Some(b);
                assert(!span_within(frets, n as int, search.options.max_span as int));
            }
            return None;
        }
    }
    proof {
        assert forall|i: int, j: int|
            0 <= i < n && 0 <= j < n implies (#[trigger] frets@[i] matches Some(a) ==> (#[trigger] frets@[j] matches Some(
                b,
            ) ==> (a > 0 && b > 0 ==> a - b <= search.options.max_span))) by {
            if frets@[i] is Some && frets@[j] is Some && frets@[i]->0 > 0 && frets@[j]->0 > 0 {
                assert(profile.non_open_count > 0);
            }
        }
    }
    let current = st.pitch_set;
    let missing_required = search.target.difference(current);
    proof {
        lemma_outside_bits(missing_required, search.formula_target);
    }
    if missing_required.bits & !search.formula_target.bits != 0 {
        proof {
            let p = choose|p: int| #[trigger] missing_required.has(p) && !search.formula_target.has(p);
            assert(search.target.has(p) && !frets_sound(search.tuning, frets@.take(n as int), p)
                && !search.formula_target.has(p));
        }
        return None;
    }
    let missing_formula = search.formula_target.difference(current);
    let mask = match inferred_omission_degrees(missing_formula, &search.formula) {
        Some(m) => m,
        None => {
            proof {
                let sounded = frets@.take(n as int);
                let missing = Set::new(|p: int| search.formula_target.has(p) && !frets_sound(search.tuning, sounded, p));
                assert(missing_formula.pitches() =~= missing);
                assert(missing_formula.bits != 0);
                lemma_some_member(missing_formula);
                let p = choose|p: int| #[trigger] missing_formula.has(p);
                assert(missing.contains(p));
                assert(missing != Set::<int>::empty());
            }
            return None;
        },
    };
    if let Some(expected) = search.bass_rule.required() {
        let matches = match st.lowest_pitch {
            Some((_, p)) => p.value() == expected.value(),
            None => false,
        };
        if !matches {
            proof {
                let sounded = frets@.take(n as int);
                let q = expected.spec_value();
                let (a, pc) = st.lowest_pitch->0;
                let i = choose|i: int|
                    #[trigger] lowest_string(search.tuning, sounded, i) && a == search.tuning.spec_open_pitch(i)
                        + frets@[i]->0 && pc.spec_value() == fret_pitch(search.tuning, i, frets@[i]->0 as int);
                if exists|k: int|
                    #[trigger] lowest_string(search.tuning, sounded, k) && fret_pitch(
                        search.tuning,
                        k,
                        sounded[k]->0 as int,
                    ) == q {
                    let k = choose|k: int|
                        #[trigger] lowest_string(search.tuning, sounded, k) && fret_pitch(
                            search.tuning,
                            k,
                            sounded[k]->0 as int,
                        ) == q;
                    assert(sounded[i] is Some && sounded[k] is Some);
                    assert(sounded[i] == frets@[i] && sounded[k] == frets@[k]);
                }
            }
            return None;
        }
    }
    proof {
        let sounded = frets@.take(n as int);
        let missing = Set::new(|p: int| search.formula_target.has(p) && !frets_sound(search.tuning, sounded, p));
        assert(missing_formula.pitches() =~= missing);
        if missing_formula.bits == 0 {
            assert forall|p: int| !missing_formula.has(p) by {
                if 0 <= p < 12 {
                    let q = p as u16;
                    assert(!bit_set(0u16, q)) by (bit_vector);
                }
            }
            assert(missing =~= Set::<int>::empty());
        }
        assert forall|i: int| 0 <= i < sounded.len() && #[trigger] sounded[i] is Some implies search.target.has(
            fret_pitch(search.tuning, i, sounded[i]->0 as int),
        ) by {
            assert(sounded[i] == frets@[i]);
        }
        if let BassRule::Required(q) = search.bass_rule {
            let (a, pc) = st.lowest_pitch->0;
            let i = choose|i: int|
                #[trigger] lowest_string(search.tuning, sounded, i) && a == search.tuning.spec_open_pitch(i)
                    + frets@[i]->0 && pc.spec_value() == fret_pitch(search.tuning, i, frets@[i]->0 as int);
            assert(sounded[i] == frets@[i]);
        }
    }
    let omissions = omission_list(mask);
    let score = voicing_score_with_profile(
        &frets,
        &search.tuning,
        search.bass_rule,
        &search.formula,
        &omissions,
        n,
        &profile,
    );
    proof {
        lemma_build_scored(search, frets, *st, missing_formula, mask, omissions@, profile, score);
    }
    Some(VoicingCandidate { frets, string_count: n, omissions, score })
}

/// Tries every choice on each string from `string_idx` on, pruning partial
/// frettings that cannot complete or cannot beat the collector's ceiling.
fn enumerate_voicings(
    search: &VoicingSearch,
    string_idx: usize,
    frets: &mut [Option<u8>; 8],
    st: PartialVoicingState,
    out: &mut VoicingCollector,
)
    requires
        search_wf(search),
        string_idx <= search.n,
        frets_ok(*old(frets), 8),
        forall|i: int| 0 <= i < string_idx ==> choice_ok(
            #[trigger] old(frets)@[i],
            search.options.min_fret as int,
            search.options.max_fret as int,
        ),
        state_wf(st, string_idx as int),
        state_matches(st, search.tuning, old(frets)@, string_idx as int),
        extremes_played(st, old(frets)@, string_idx as int),
        forall|i: int| 0 <= i < string_idx ==> (#[trigger] old(frets)@[i] matches Some(f) ==> search.target.has(
            fret_pitch(search.tuning, i, f as int),
        )),
        collector_wf(old(out), search),
        forall|i: int| search.n <= i < 8 ==> #[trigger] old(frets)@[i] is None,
        old(out).all ==> distinct_frets(old(out).voicings@),
        old(out).all ==> forall|m: int|
            0 <= m < old(out).voicings@.len() ==> !agrees(
                (#[trigger] old(out).voicings@[m]).frets@,
                old(frets)@,
                string_idx as int,
            ),
    ensures
        frets_ok(*final(frets), 8),
        forall|i: int| search.n <= i < 8 ==> #[trigger] final(frets)@[i] is None,
        forall|i: int| 0 <= i < string_idx ==> #[trigger] final(frets)@[i] == old(frets)@[i],
        collector_wf(final(out), search),
        final(out).all == old(out).all,
        final(out).limit == old(out).limit,
        old(out).all ==> final(out).voicings@.len() >= old(out).voicings@.len() && forall|m: int|
            0 <= m < old(out).voicings@.len() ==> #[trigger] final(out).voicings@[m] == old(out).voicings@[m],
        old(out).all && old(out).exceeded ==> final(out).exceeded,
        old(out).all ==> forall|m: int|
            old(out).voicings@.len() <= m < final(out).voicings@.len() ==> agrees(
                (#[trigger] final(out).voicings@[m]).frets@,
                old(frets)@,
                string_idx as int,
            ),
        old(out).all ==> distinct_frets(final(out).voicings@),
        old(out).all ==> forall|f: [Option<u8>; 8]|
            completes(search, old(frets)@, string_idx as int, f) && #[trigger] buildable(f, search) ==> covered(
                *final(out),
                f@,
            ),
    decreases search.n - string_idx,
{
    let ghost prefix = frets@;
    let ghost start = *out;
    if string_idx == search.n {
        if let Some(c) = build_voicing_candidate(*frets, search, &st) {
            out.insert(c, Ghost(search));
            proof {
                if start.all {
                    if !out.exceeded {
                        assert(out.voicings@.last() == c);
                        assert forall|m1: int, m2: int| 0 <= m1 < m2 < out.voicings@.len() implies #[trigger] out.voicings@[m1].frets@
                            != #[trigger] out.voicings@[m2].frets@ by {
                            if m2 == out.voicings@.len() - 1 {
                                assert(out.voicings@[m1] == start.voicings@[m1]);
                                assert(!agrees(start.voicings@[m1].frets@, prefix, string_idx as int));
                            } else {
                                assert(out.voicings@[m1] == start.voicings@[m1]);
                                assert(out.voicings@[m2] == start.voicings@[m2]);
                            }
                        }
                    }
                    assert forall|f: [Option<u8>; 8]|
                        completes(search, prefix, string_idx as int, f) && #[trigger] buildable(f, search) implies covered(
                            *out,
                            f@,
                        ) by {
                        assert(f@ =~= prefix);
                        if !out.exceeded {
                            assert(out.voicings@[out.voicings@.len() - 1].frets@ == f@);
                        }
                    }
                }
            }
        } else {
            proof {
                assert forall|f: [Option<u8>; 8]|
                    completes(search, prefix, string_idx as int, f) && #[trigger] buildable(f, search) implies covered(
                        *out,
                        f@,
                    ) by {
                    assert(f@ =~= prefix);
                    assert(buildable(*frets, search));
                }
            }
        }
        return;
    }
    let count = search.per_string[string_idx].len();
    let ghost choices = search.per_string@[string_idx as int]@;
    proof {
        lemma_wanted_frets(
            search.tuning,
            string_idx as int,
            search.target,
            search.options.min_fret as int,
            search.options.max_fret + 1,
        );
    }
    let mut k: usize = 0;
    while k < count
        invariant
            0 <= k <= count,
            search_wf(search),
            string_idx < search.n,
            count == search.per_string@[string_idx as int]@.len(),
            choices == search.per_string@[string_idx as int]@,
            forall|k1: int, k2: int| 0 <= k1 < k2 < choices.len() ==> #[trigger] choices[k1] != #[trigger] choices[k2],
            frets_ok(*frets, 8),
            forall|i: int| 0 <= i < string_idx ==> #[trigger] frets@[i] == old(frets)@[i],
            forall|i: int| search.n <= i < 8 ==> #[trigger] frets@[i] is None,
            prefix == old(frets)@,
            start == *old(out),
            forall|i: int| 0 <= i < string_idx ==> choice_ok(
                #[trigger] old(frets)@[i],
                search.options.min_fret as int,
                search.options.max_fret as int,
            ),
            state_wf(st, string_idx as int),
            state_matches(st, search.tuning, old(frets)@, string_idx as int),
            extremes_played(st, old(frets)@, string_idx as int),
            forall|i: int| 0 <= i < string_idx ==> (#[trigger] old(frets)@[i] matches Some(f) ==> search.target.has(
                fret_pitch(search.tuning, i, f as int),
            )),
            collector_wf(out, search),
            out.all == old(out).all,
            out.limit == old(out).limit,
            start.all ==> out.voicings@.len() >= start.voicings@.len() && forall|m: int|
                0 <= m < start.voicings@.len() ==> #[trigger] out.voicings@[m] == start.voicings@[m],
            start.all && start.exceeded ==> out.exceeded,
            start.all ==> forall|m: int|
                start.voicings@.len() <= m < out.voicings@.len() ==> agrees(
                    (#[trigger] out.voicings@[m]).frets@,
                    prefix,
                    string_idx as int,
                ) && exists|kk: int| 0 <= kk < k && out.voicings@[m].frets@[string_idx as int] == choices[kk],
            start.all ==> distinct_frets(out.voicings@),
            start.all ==> forall|f: [Option<u8>; 8]|
                completes(search, prefix, string_idx as int, f) && #[trigger] buildable(f, search) && (exists|kk: int|
                    0 <= kk < k && f@[string_idx as int] == choices[kk]) ==> covered(*out, f@),
            start.all ==> distinct_frets(start.voicings@) && forall|m: int|
                0 <= m < start.voicings@.len() ==> !agrees(
                    (#[trigger] start.voicings@[m]).frets@,
                    prefix,
                    string_idx as int,
                ),
        decreases count - k,
    {
        if out.should_stop() {
            proof {
                assert forall|f: [Option<u8>; 8]|
                    completes(search, prefix, string_idx as int, f) && #[trigger] buildable(f, search) implies covered(
                        *out,
                        f@,
                    ) by {}
            }
            return;
        }
        let choice = search.per_string[string_idx][k];
        assert(choice_ok(choice, search.options.min_fret as int, search.options.max_fret as int));
        frets[string_idx] = choice;
        proof {
            lemma_state_prefix(st, search.tuning, old(frets)@, frets@, string_idx as int);
            lemma_extremes_prefix(st, old(frets)@, frets@, string_idx as int);
            assert(search.per_string@[string_idx as int]@[k as int] == choice);
        }
        let next_state = advance(st, search, string_idx, choice, Ghost(frets@));
        let worth_completing = if out.all {
            partial_voicing_may_sound(search, string_idx + 1, &next_state)
        } else {
            partial_voicing_can_complete(search, string_idx + 1, &next_state)
                && partial_voicing_score_floor(search, string_idx + 1, &next_state) <= out.score_ceiling()
        };
        let ghost before = *out;
        let ghost inner = frets@;
        if worth_completing {
            proof {
                if start.all {
                    assert forall|m: int| 0 <= m < before.voicings@.len() implies !agrees(
                        (#[trigger] before.voicings@[m]).frets@,
                        inner,
                        string_idx + 1,
                    ) by {
                        if agrees(before.voicings@[m].frets@, inner, string_idx + 1) {
                            if m < start.voicings@.len() {
                                assert(agrees(start.voicings@[m].frets@, prefix, string_idx as int));
                            } else {
                                let kk = choose|kk: int|
                                    0 <= kk < k && before.voicings@[m].frets@[string_idx as int] == choices[kk];
                                assert(before.voicings@[m].frets@[string_idx as int] == inner[string_idx as int]);
                            }
                        }
                    }
                }
            }
            enumerate_voicings(search, string_idx + 1, frets, next_state, out);
        }
        proof {
            if start.all {
                assert forall|m: int| start.voicings@.len() <= m < out.voicings@.len() implies agrees(
                    (#[trigger] out.voicings@[m]).frets@,
                    prefix,
                    string_idx as int,
                ) && exists|kk: int| 0 <= kk < k + 1 && out.voicings@[m].frets@[string_idx as int] == choices[kk] by {
                    if m < before.voicings@.len() {
                        assert(out.voicings@[m] == before.voicings@[m]);
                        let kk = choose|kk: int|
                            0 <= kk < k && before.voicings@[m].frets@[string_idx as int] == choices[kk];
                    } else {
                        assert(agrees(out.voicings@[m].frets@, inner, string_idx + 1));
                        assert(out.voicings@[m].frets@[string_idx as int] == choices[k as int]);
                    }
                }
                assert forall|f: [Option<u8>; 8]|
                    completes(search, prefix, string_idx as int, f) && #[trigger] buildable(f, search) && (exists|kk: int|
                        0 <= kk < k + 1 && f@[string_idx as int] == choices[kk]) implies covered(*out, f@) by {
                    let kk = choose|kk: int| 0 <= kk < k + 1 && f@[string_idx as int] == choices[kk];
                    if kk < k {
                        assert(covered(before, f@));
                        if !before.exceeded {
                            let m = choose|m: int| 0 <= m < before.voicings@.len() && #[trigger] before.voicings@[m].frets@ == f@;
                            if worth_completing {
                                assert(out.voicings@[m] == before.voicings@[m]);
                            }
                        }
                    } else {
                        assert(completes(search, inner, string_idx + 1, f));
                        if !worth_completing {
                            lemma_state_prefix(next_state, search.tuning, inner, f@, string_idx + 1);
                            lemma_extremes_prefix(next_state, inner, f@, string_idx + 1);
                            lemma_may_sound(search, f, string_idx + 1, next_state);
                        }
                    }
                }
            }
        }
        k += 1;
    }
    proof {
        if start.all {
            assert forall|f: [Option<u8>; 8]|
                completes(search, prefix, string_idx as int, f) && #[trigger] buildable(f, search) implies covered(*out, f@) by {
                let kk = choose|kk: int| 0 <= kk < choices.len() && choices[kk] == f@[string_idx as int];
            }
        }
    }
}

/// A run of frets agrees with another on its first `k` strings.
spec fn agrees(a: Seq<Option<u8>>, b: Seq<Option<u8>>, k: int) -> bool {
    forall|i: int| 0 <= i < k ==> #[trigger] a[i] == b[i]
}

/// No two candidates have the same frets.
spec fn distinct_frets(v: Seq<VoicingCandidate>) -> bool {
    forall|m1: int, m2: int| 0 <= m1 < m2 < v.len() ==> #[trigger] v[m1].frets@ != #[trigger] v[m2].frets@
}

/// Frets `f` are those of a collected candidate, or the collection ran
/// over its cap.
spec fn covered(out: VoicingCollector, f: Seq<Option<u8>>) -> bool {
    out.exceeded || exists|m: int| 0 <= m < out.voicings@.len() && #[trigger] out.voicings@[m].frets@ == f
}

/// The lowest and highest stopped frets of the first `k` strings stay
/// played in frets that agree there.
proof fn lemma_extremes_prefix(st: PartialVoicingState, a: Seq<Option<u8>>, b: Seq<Option<u8>>, k: int)
    requires
        extremes_played(st, a, k),
        k <= a.len(),
        k <= b.len(),
        forall|i: int| 0 <= i < k ==> #[trigger] b[i] == a[i],
    ensures
        extremes_played(st, b, k),
{
    if let Some(m) = st.min_non_open {
        let i = choose|i: int| 0 <= i < k && #[trigger] a[i] == Some(m);
        assert(b[i] == Some(m));
    }
    if let Some(m) = st.max_non_open {
        let i = choose|i: int| 0 <= i < k && #[trigger] a[i] == Some(m);
        assert(b[i] == Some(m));
    }
}


/// The fret choices of `string`: each fret of the window that sounds a
/// wanted pitch, lowest first, then muting it.
fn string_choices(tuning: &Tuning, string: usize, options: VoicingOptions, target: PitchSet) -> (v: Vec<
    Option<u8>,
>)
    requires
        string < tuning.spec_string_count(),
        options.min_fret <= options.max_fret <= 30,
    ensures
        v@ == wanted_frets(
            *tuning,
            string as int,
            target,
            options.min_fret as int,
            options.max_fret + 1,
        ).push(None),
        forall|k: int| 0 <= k < v@.len() ==> choice_ok(
            #[trigger] v@[k],
            options.min_fret as int,
            options.max_fret as int,
        ),
        forall|k: int| 0 <= k < v@.len() ==> (#[trigger] v@[k] matches Some(f) ==> target.has(
            fret_pitch(*tuning, string as int, f as int),
        )),
{
    let mut v: Vec<Option<u8>> = Vec::new();
    let mut fret = options.min_fret;
    while fret <= options.max_fret
        invariant
            options.min_fret <= fret <= options.max_fret + 1,
            options.max_fret <= 30,
            string < tuning.spec_string_count(),
            v@ == wanted_frets(*tuning, string as int, target, options.min_fret as int, fret as int),
            forall|k: int| 0 <= k < v@.len() ==> choice_ok(
                #[trigger] v@[k],
                options.min_fret as int,
                options.max_fret as int,
            ),
            forall|k: int| 0 <= k < v@.len() ==> (#[trigger] v@[k] matches Some(f) ==> target.has(
                fret_pitch(*tuning, string as int, f as int),
            )),
        decreases options.max_fret + 1 - fret,
    {
        if target.contains(tuning.pitch_at(string, fret)) {
            v.push(Some(fret));
        }
        fret += 1;
    }
    v.push(None);
    v
}

/// The frets `lo..hi` of string `i`, in order, that sound a pitch of `target`.
pub open spec fn wanted_frets(t: Tuning, i: int, target: PitchSet, lo: int, hi: int) -> Seq<Option<u8>>
    decreases hi - lo,
{
    if hi <= lo {
        seq![]
    } else {
        wanted_frets(t, i, target, lo, hi - 1) + if target.has(fret_pitch(t, i, hi - 1)) {
            seq![Some((hi - 1) as u8)]
        } else {
            seq![]
        }
    }
}

/// The wanted frets come in rising order, each in range and sounding a
/// pitch of `target`, and every such fret is among them.
proof fn lemma_wanted_frets(t: Tuning, i: int, target: PitchSet, lo: int, hi: int)
    requires
        0 <= lo,
        hi <= 256,
    ensures
        forall|a: int| 0 <= a < wanted_frets(t, i, target, lo, hi).len() ==> (#[trigger] wanted_frets(
            t,
            i,
            target,
            lo,
            hi,
        )[a] matches Some(f) && lo <= f < hi && target.has(fret_pitch(t, i, f as int))),
        forall|a: int, b: int|
            0 <= a < b < wanted_frets(t, i, target, lo, hi).len() ==> #[trigger] wanted_frets(t, i, target, lo, hi)[a]->0
                < #[trigger] wanted_frets(t, i, target, lo, hi)[b]->0,
        forall|f: u8| lo <= f < hi && target.has(fret_pitch(t, i, f as int)) ==> #[trigger] wanted_frets(
            t,
            i,
            target,
            lo,
            hi,
        ).contains(Some(f)),
    decreases hi - lo,
{
    if hi > lo {
        lemma_wanted_frets(t, i, target, lo, hi - 1);
        let w = wanted_frets(t, i, target, lo, hi - 1);
        let v = wanted_frets(t, i, target, lo, hi);
        assert forall|f: u8| lo <= f < hi && target.has(fret_pitch(t, i, f as int)) implies #[trigger] v.contains(
            Some(f),
        ) by {
            if f < hi - 1 {
                assert(w.contains(Some(f)));
                let a = choose|a: int| 0 <= a < w.len() && w[a] == Some(f);
                assert(v[a] == w[a]);
            } else {
                assert(v[v.len() - 1] == Some(f));
            }
        }
        assert forall|a: int| 0 <= a < v.len() implies (#[trigger] v[a] matches Some(f) && lo <= f < hi && target.has(
            fret_pitch(t, i, f as int),
        )) by {
            if a < w.len() {
                assert(v[a] == w[a]);
            }
        }
        assert forall|a: int, b: int| 0 <= a < b < v.len() implies #[trigger] v[a]->0 < #[trigger] v[b]->0 by {
            if b < w.len() {
                assert(v[a] == w[a] && v[b] == w[b]);
            } else {
                assert(v[a] == w[a]);
            }
        }
    }
}

/// Builds the search tables for `chord` on `tuning`.
fn voicing_search(chord: &ChordSymbol, tuning: Tuning, options: VoicingOptions) -> (s: VoicingSearch)
    requires
        -2 <= chord.root.accidental <= 2,
        options.min_fret <= options.max_fret <= 30,
        options.max_span <= 30,
    ensures
        search_wf(&s),
        s.options == options,
        s.n == tuning.spec_string_count(),
        s.tuning == tuning,
        search_for(&s, *chord),
{
    let formula = chord.formula();
    let formula_target = formula.pitch_set();
    let target = required_pitch_set(chord, &formula);
    let bass_rule = bass_rule_for_chord(chord, &tuning);
    let n = tuning.string_count();
    let mut per_string: Vec<Vec<Option<u8>>> = Vec::new();
    let mut string: usize = 0;
    while string < n
        invariant
            0 <= string <= n,
            n == tuning.spec_string_count(),
            n <= 8,
            options.min_fret <= options.max_fret <= 30,
            per_string@.len() == string,
            forall|st: int| 0 <= st < string ==> #[trigger] per_string@[st]@ == wanted_frets(
                tuning,
                st,
                target,
                options.min_fret as int,
                options.max_fret + 1,
            ).push(None),
            forall|st: int, k: int|
                0 <= st < string && 0 <= k < per_string@[st]@.len() ==> choice_ok(
                    #[trigger] per_string@[st]@[k],
                    options.min_fret as int,
                    options.max_fret as int,
                ),
            forall|st: int, k: int|
                0 <= st < string && 0 <= k < per_string@[st]@.len() ==> (#[trigger] per_string@[st]@[k] matches Some(
                    f,
                ) ==> target.has(fret_pitch(tuning, st, f as int))),
        decreases n - string,
    {
        let choices = string_choices(&tuning, string, options, target);
        per_string.push(choices);
        string += 1;
    }
    let mut suffix_sets: Vec<PitchSet> = Vec::new();
    let mut suffix_min_non_open: Vec<Option<u8>> = Vec::new();
    let mut suffix_has_open: Vec<bool> = Vec::new();
    let mut suffix_bass: Vec<Option<i16>> = Vec::new();
    let mut i: usize = 0;
    while i <= n
        invariant
            0 <= i <= n + 1,
            n <= 8,
            suffix_sets@.len() == i,
            suffix_min_non_open@.len() == i,
            suffix_has_open@.len() == i,
            suffix_bass@.len() == i,
            forall|k: int| 0 <= k < i ==> #[trigger] suffix_sets@[k].wf(),
            forall|k: int| 0 <= k < i ==> #[trigger] suffix_min_non_open@[k] is None,
        decreases n + 1 - i,
    {
        suffix_sets.push(PitchSet::empty());
        suffix_min_non_open.push(None);
        suffix_has_open.push(false);
        suffix_bass.push(None);
        i += 1;
    }
    let required = bass_rule.required();
    let mut string: usize = n;
    while string > 0
        invariant
            0 <= string <= n,
            n == tuning.spec_string_count(),
            n <= 8,
            per_string@.len() == n,
            forall|st: int| 0 <= st < n ==> #[trigger] per_string@[st]@ == wanted_frets(
                tuning,
                st,
                target,
                options.min_fret as int,
                options.max_fret + 1,
            ).push(None),
            suffix_sets@.len() == n + 1,
            suffix_min_non_open@.len() == n + 1,
            suffix_has_open@.len() == n + 1,
            suffix_bass@.len() == n + 1,
            options.min_fret <= options.max_fret <= 30,
            forall|st: int, k: int|
                0 <= st < n && 0 <= k < per_string@[st]@.len() ==> choice_ok(
                    #[trigger] per_string@[st]@[k],
                    options.min_fret as int,
                    options.max_fret as int,
                ),
            forall|st: int, k: int|
                0 <= st < n && 0 <= k < per_string@[st]@.len() ==> (#[trigger] per_string@[st]@[k] matches Some(
                    f,
                ) ==> target.has(fret_pitch(tuning, st, f as int))),
            forall|k: int| 0 <= k < n + 1 ==> #[trigger] suffix_sets@[k].wf(),
            forall|k: int| 0 <= k < n + 1 ==> (#[trigger] suffix_min_non_open@[k] matches Some(v) ==> 1 <= v <= 30),
            required == (match bass_rule {
                BassRule::Required(q) => Some(q),
                _ => None,
            }),
            forall|j: int, st: int, k: int|
                string <= j <= st < n && 0 <= k < per_string@[st]@.len() ==> #[trigger] covered_choice(
                    suffix_sets@,
                    suffix_bass@,
                    tuning,
                    bass_rule,
                    j,
                    st,
                    per_string@[st]@[k],
                ),
        decreases string,
    {
        let s = string - 1;
        let mut set = suffix_sets[s + 1];
        let mut min_non_open = suffix_min_non_open[s + 1];
        let mut has_open = suffix_has_open[s + 1];
        let mut bass_min = suffix_bass[s + 1];
        let choices = &per_string[s];
        let mut k: usize = 0;
        while k < choices.len()
            invariant
                0 <= k <= choices@.len(),
                s < n,
                n == tuning.spec_string_count(),
                options.max_fret <= 30,
                forall|k: int| 0 <= k < choices@.len() ==> choice_ok(
                    #[trigger] choices@[k],
                    options.min_fret as int,
                    options.max_fret as int,
                ),
                set.wf(),
                min_non_open matches Some(v) ==> 1 <= v <= 30,
                choices == &per_string@[s as int],
                forall|p: int| #[trigger] suffix_sets@[s + 1].has(p) ==> set.has(p),
                suffix_bass@[s + 1] matches Some(b0) ==> (bass_min matches Some(b) && b <= b0),
                required == (match bass_rule {
                    BassRule::Required(q) => Some(q),
                    _ => None,
                }),
                forall|kk: int| 0 <= kk < k ==> (#[trigger] choices@[kk] matches Some(f) ==> set.has(
                    fret_pitch(tuning, s as int, f as int),
                ) && (bass_rule matches BassRule::Required(q) && fret_pitch(tuning, s as int, f as int)
                    == q.spec_value() ==> (bass_min matches Some(b) && b <= tuning.spec_open_pitch(s as int) + f))),
            decreases choices@.len() - k,
        {
            assert(choice_ok(choices@[k as int], options.min_fret as int, options.max_fret as int));
            if let Some(fret) = choices[k] {
                let pitch = tuning.pitch_at(s, fret);
                set.insert(pitch);
                if fret == 0 {
                    has_open = true;
                } else {
                    min_non_open = Some(
                        match min_non_open {
                            Some(current) => if fret < current {
                                fret
                            } else {
                                current
                            },
                            None => fret,
                        },
                    );
                }
                if let Some(req) = required {
                    if pitch.value() == req.value() {
                        let absolute = tuning.absolute_pitch(s, fret);
                        bass_min = Some(
                            match bass_min {
                                Some(current) => if absolute < current {
                                    absolute
                                } else {
                                    current
                                },
                                None => absolute,
                            },
                        );
                    }
                }
            }
            k += 1;
        }
        let ghost old_sets = suffix_sets@;
        let ghost old_bass = suffix_bass@;
        suffix_sets.set(s, set);
        suffix_min_non_open.set(s, min_non_open);
        suffix_has_open.set(s, has_open);
        suffix_bass.set(s, bass_min);
        proof {
            assert forall|j: int, st: int, k: int|
                s <= j <= st < n && 0 <= k < per_string@[st]@.len() implies #[trigger] covered_choice(
                    suffix_sets@,
                    suffix_bass@,
                    tuning,
                    bass_rule,
                    j,
                    st,
                    per_string@[st]@[k],
                ) by {
                if j == s {
                    if st == s {
                        assert(choices@[k] == per_string@[st]@[k]);
                    } else {
                        assert(covered_choice(old_sets, old_bass, tuning, bass_rule, s + 1, st, per_string@[st]@[k]));
                    }
                } else {
                    assert(covered_choice(old_sets, old_bass, tuning, bass_rule, j, st, per_string@[st]@[k]));
                }
            }
        }
        string -= 1;
    }
    let mut non_omissible = target;
    let mut t: usize = 0;
    while t < formula.tones.len()
        invariant
            0 <= t <= formula.tones@.len(),
            formula.wf(),
            non_omissible.wf(),
        decreases formula.tones@.len() - t,
    {
        let tone = formula.tones[t];
        assert(tone_wf(formula.tones@[t as int]));
        if can_infer_omission(&tone, &formula) {
            let other = PitchSet::empty().with(PitchClass::from_value(tone.pitch_class));
            non_omissible = non_omissible.difference(other);
        }
        t += 1;
    }
    let omissible = omissible_missing_sets(&formula);
    VoicingSearch {
        per_string,
        suffix_sets,
        suffix_min_non_open,
        suffix_has_open,
        suffix_required_bass_min: suffix_bass,
        target,
        formula_target,
        non_omissible_pitches: non_omissible,
        omissible,
        bass_rule,
        bass_spelling: chord.bass,
        formula,
        options,
        tuning,
        n,
    }
}

/// The note name of a played pitch: its chord tone, or the slash bass.
fn voicing_note_name(pitch: PitchClass, search: &VoicingSearch) -> (n: NoteName)
    ensures
        (exists|i: int|
            0 <= i < search.formula.tones@.len() && #[trigger] search.formula.tones@[i].pitch_class
                == pitch.spec_value()) ==> exists|i: int|
            0 <= i < search.formula.tones@.len() && #[trigger] search.formula.tones@[i].note == n
                && search.formula.tones@[i].pitch_class == pitch.spec_value() && forall|j: int|
                0 <= j < i ==> #[trigger] search.formula.tones@[j].pitch_class != pitch.spec_value(),
        (forall|i: int|
            0 <= i < search.formula.tones@.len() ==> #[trigger] search.formula.tones@[i].pitch_class
                != pitch.spec_value()) ==> n == match search.bass_spelling {
            Some(b) => if note_pitch(b) == pitch.spec_value() {
                b
            } else {
                sharp_name(pitch.spec_value() as int)
            },
            None => sharp_name(pitch.spec_value() as int),
        },
{
    if let Some(tone) = search.formula.tone_for_pitch(pitch) {
        return tone.note;
    }
    if let Some(bass) = search.bass_spelling {
        if bass.pitch_class().value() == pitch.value() {
            return bass;
        }
    }
    NoteName::simple_for_pitch(pitch, false)
}

/// Text of the first `k` of `frets`: each fret's digits or `x`, joined by
/// dashes when `dashed`.
pub open spec fn frets_text(frets: Seq<Option<u8>>, dashed: bool, k: nat) -> Seq<char>
    decreases k,
{
    if k == 0 {
        seq![]
    } else {
        frets_text(frets, dashed, (k - 1) as nat) + (if dashed && k > 1 {
            seq!['-']
        } else {
            seq![]
        }) + crate::notes::fret_text(frets[k - 1])
    }
}

/// A voicing's texts are those of its frets: dashed always, compact one
/// character per string unless some fret needs two digits.
pub open spec fn voicing_texts(v: Voicing) -> bool {
    let n = v.frets@.len();
    &&& v.dashed@ == frets_text(v.frets@, true, n)
    &&& v.compact@ == if exists|i: int| 0 <= i < n && (#[trigger] v.frets@[i] matches Some(x) && x > 9) {
        frets_text(v.frets@, true, n)
    } else {
        frets_text(v.frets@, false, n)
    }
}

/// A fingering's text is the text of its frets.
proof fn lemma_frets_text(f: &Fingering, frets: Seq<Option<u8>>, dashed: bool, k: nat)
    requires
        k <= f.spec_string_count(),
        k <= frets.len(),
        forall|i: int| 0 <= i < k ==> #[trigger] f.spec_fret(i) == frets[i],
    ensures
        crate::notes::fingering_text_prefix(f, dashed, k) == frets_text(frets, dashed, k),
    decreases k,
{
    if k > 0 {
        lemma_frets_text(f, frets, dashed, (k - 1) as nat);
    }
}

/// The voicing of a candidate: its texts, frets, note names and omissions.
fn materialize_voicing(c: &VoicingCandidate, search: &VoicingSearch) -> (v: Voicing)
    requires
        search_wf(search),
        candidate_ok(*c, search),
    ensures
        v.frets@ == c.frets@.take(search.n as int),
        v.score == c.score,
        voicing_texts(v),
        v.omissions@.len() == c.omissions@.len(),
        forall|k: int| 0 <= k < v.omissions@.len() ==> (#[trigger] v.omissions@[k])@ == decimal(
            omission_degree_of(c.omissions@[k]) as nat,
        ),
{
    let n = search.n;
    let fingering = Fingering::from_frets(c.frets, n);
    let mut frets: Vec<Option<u8>> = Vec::new();
    let mut notes: Vec<String> = Vec::new();
    let mut i: usize = 0;
    while i < n
        invariant
            0 <= i <= n <= 8,
            n == search.tuning.spec_string_count(),
            frets_ok(c.frets, n as int),
            frets@ == c.frets@.take(i as int),
        decreases n - i,
    {
        let fret = c.frets[i];
        frets.push(fret);
        assert(fret_ok(c.frets@[i as int]));
        if let Some(f) = fret {
            let pitch = search.tuning.pitch_at(i, f);
            notes.push(voicing_note_name(pitch, search).to_string());
        }
        i += 1;
        assert(frets@ =~= c.frets@.take(i as int));
    }
    let mut omissions: Vec<String> = Vec::new();
    let mut k: usize = 0;
    while k < c.omissions.len()
        invariant
            0 <= k <= c.omissions@.len(),
            omissions@.len() == k,
            forall|j: int| 0 <= j < k ==> (#[trigger] omissions@[j])@ == decimal(
                omission_degree_of(c.omissions@[j]) as nat,
            ),
        decreases c.omissions@.len() - k,
    {
        let mut out: Vec<char> = Vec::new();
        push_decimal(&mut out, c.omissions[k].degree() as u32);
        let text = chars_to_string(&out);
        let ghost before = omissions@;
        omissions.push(text);
        proof {
            assert forall|j: int| 0 <= j < k + 1 implies (#[trigger] omissions@[j])@ == decimal(
                omission_degree_of(c.omissions@[j]) as nat,
            ) by {
                if j < k {
                    assert(omissions@[j] == before[j]);
                }
            }
        }
        k += 1;
    }
    let compact = fingering.compact();
    let dashed = fingering.dashed();
    proof {
        lemma_frets_text(&fingering, frets@, true, n as nat);
        lemma_frets_text(&fingering, frets@, false, n as nat);
        if fingering.spec_has_double_digits() {
            let i = choose|i: int| 0 <= i < fingering.spec_string_count() && (#[trigger] fingering.spec_fret(i) matches Some(x) && x > 9);
            assert(frets@[i] == fingering.spec_fret(i));
        }
        if exists|i: int| 0 <= i < frets@.len() && (#[trigger] frets@[i] matches Some(x) && x > 9) {
            let i = choose|i: int| 0 <= i < frets@.len() && (#[trigger] frets@[i] matches Some(x) && x > 9);
            assert(fingering.spec_fret(i) == frets@[i]);
        }
    }
    Voicing { compact, dashed, frets, notes, omissions, score: c.score }
}

/// An error whose message is `head`, the number, and `tail`.
fn range_error(head: &str, value: u32, tail: &str) -> (e: ChordClawError)
    ensures
        e.spec_message() == head@ + decimal(value as nat) + tail@,
        e.spec_kind() == ChordClawErrorKind::Data,
{
    let mut msg: Vec<char> = Vec::new();
    push_str(&mut msg, head);
    push_decimal(&mut msg, value);
    push_str(&mut msg, tail);
    ChordClawError::from_chars(&msg)
}

/// The options are within the supported ranges.
pub open spec fn options_valid(options: VoicingOptions) -> bool {
    &&& options.min_fret <= MAX_STANDARD_FRET
    &&& options.max_fret <= MAX_STANDARD_FRET
    &&& options.max_span <= MAX_STANDARD_FRET
    &&& options.min_fret <= options.max_fret
    &&& options.mode matches VoicingMode::Curated { limit } ==> limit <= MAX_LIMIT
}

/// A generated voicing plays the strings of the tuning, each muted or
/// within the fret window, with its stopped frets within the span.
pub open spec fn voicing_in_window(v: Voicing, n: int, options: VoicingOptions) -> bool {
    &&& v.frets@.len() == n
    &&& forall|i: int| 0 <= i < n ==> (#[trigger] v.frets@[i] matches Some(f) ==> options.min_fret <= f
        <= options.max_fret)
    &&& forall|i: int, j: int|
        0 <= i < n && 0 <= j < n ==> (#[trigger] v.frets@[i] matches Some(a) ==> (#[trigger] v.frets@[j] matches Some(
            b,
        ) ==> (a > 0 && b > 0 ==> a - b <= options.max_span)))
}

/// Voicings of a chord symbol in standard tuning.
pub fn voicings(input: &str, options: VoicingOptions) -> (r: Result<Vec<Voicing>, ChordClawError>)
    ensures
        r is Ok ==> options_valid(options),
        !options_valid(options) ==> r is Err,
        r matches Ok(v) ==> forall|i: int| 0 <= i < v@.len() ==> voicing_in_window(#[trigger] v@[i], 6, options),
        r matches Ok(v) ==> (options.mode matches VoicingMode::Curated { limit } ==> v@.len() <= limit),
        r matches Ok(v) ==> (options.mode == VoicingMode::All ==> v@.len() <= MAX_ALL_VOICINGS),
        r matches Ok(v) ==> voicings_ranked(v@),
        r is Ok ==> exists|sym: ChordSymbol|
            symbol_text_parts(trimmed(normalized_glyphs(input@)), sym) && #[trigger] symbol_valid(sym),
        r matches Ok(v) ==> exists|t: Tuning|
            #[trigger] crate::identify::standard_guitar(t) && (forall|sym: ChordSymbol|
                symbol_text_parts(trimmed(normalized_glyphs(input@)), sym) ==> forall|i: int|
                    0 <= i < v@.len() ==> sounds_chord(t, (#[trigger] v@[i]).frets@, sym) && voicing_from_frets(
                        t,
                        sym,
                        v@[i],
                    )) && (options.mode == VoicingMode::All ==> forall|sym: ChordSymbol, f: [Option<u8>; 8]|
                symbol_text_parts(trimmed(normalized_glyphs(input@)), sym) && #[trigger] chord_fretting(
                    t,
                    sym,
                    options,
                    f,
                ) ==> exists|i: int| 0 <= i < v@.len() && v@[i].frets@ == f@.take(6)),
        r matches Ok(v) ==> (options.mode == VoicingMode::All ==> forall|i: int, j: int|
            0 <= i < j < v@.len() ==> #[trigger] v@[i].frets@ != #[trigger] v@[j].frets@),
        options_valid(options) && options.mode is Curated && (exists|sym: ChordSymbol|
            symbol_text_parts(trimmed(normalized_glyphs(input@)), sym) && #[trigger] symbol_valid(sym))
            ==> r is Ok,
{
    let tuning = standard_tuning();
    let r = voicings_with_tuning(input, tuning, options);
    proof {
        if r is Ok {
            assert(crate::identify::standard_guitar(tuning));
        }
    }
    r
}

/// Voicings of a chord symbol on `tuning`: every fretting within the
/// window and span that sounds the chord's pitches, with omissible tones
/// left out and a slash bass lowest, scored and ranked; a curated list of at
/// most `limit`, or all of them up to a cap.
pub fn voicings_with_tuning(input: &str, tuning: Tuning, options: VoicingOptions) -> (r: Result<
    Vec<Voicing>,
    ChordClawError,
>)
    ensures
        r is Ok ==> options_valid(options),
        !options_valid(options) ==> r is Err,
        options.min_fret > MAX_STANDARD_FRET ==> (r matches Err(e) && e.spec_message() == "invalid min_fret '"@
            + decimal(options.min_fret as nat) + "': standard guitar range is 0..=30"@),
        options.min_fret <= MAX_STANDARD_FRET && options.max_fret > MAX_STANDARD_FRET ==> (r matches Err(e)
            && e.spec_message() == "invalid max_fret '"@ + decimal(options.max_fret as nat)
            + "': standard guitar range is 0..=30"@),
        options.min_fret <= MAX_STANDARD_FRET && options.max_fret <= MAX_STANDARD_FRET && options.max_span
            > MAX_STANDARD_FRET ==> (r matches Err(e) && e.spec_message() == "invalid max_span '"@ + decimal(
            options.max_span as nat,
        ) + "': standard guitar range is 0..=30"@),
        options.min_fret <= MAX_STANDARD_FRET && options.max_fret <= MAX_STANDARD_FRET && options.max_span
            <= MAX_STANDARD_FRET && options.min_fret > options.max_fret ==> (r matches Err(e) && e.spec_message()
            == "invalid fret range: min_fret '"@ + decimal(options.min_fret as nat) + "' cannot exceed max_fret '"@
            + decimal(options.max_fret as nat) + "'"@),
        options.min_fret <= options.max_fret <= MAX_STANDARD_FRET && options.max_span <= MAX_STANDARD_FRET && (
        options.mode matches VoicingMode::Curated { limit } && limit > MAX_LIMIT) ==> (r matches Err(e)
            && e.spec_message() == "invalid limit '"@ + decimal(options.mode->limit as nat)
            + "': curated voicing limit is 0..=1000; use --all for exhaustive output"@),
        r matches Ok(v) ==> forall|i: int| 0 <= i < v@.len() ==> voicing_in_window(
            #[trigger] v@[i],
            tuning.spec_string_count() as int,
            options,
        ),
        r matches Ok(v) ==> (options.mode matches VoicingMode::Curated { limit } ==> v@.len() <= limit),
        r matches Ok(v) ==> (options.mode == VoicingMode::All ==> v@.len() <= MAX_ALL_VOICINGS),
        r matches Ok(v) ==> voicings_ranked(v@),
        r is Ok ==> exists|sym: ChordSymbol|
            symbol_text_parts(trimmed(normalized_glyphs(input@)), sym) && #[trigger] symbol_valid(sym),
        r matches Ok(v) ==> forall|sym: ChordSymbol|
            symbol_text_parts(trimmed(normalized_glyphs(input@)), sym) ==> forall|i: int|
                0 <= i < v@.len() ==> sounds_chord(tuning, (#[trigger] v@[i]).frets@, sym),
        r matches Ok(v) ==> forall|sym: ChordSymbol|
            symbol_text_parts(trimmed(normalized_glyphs(input@)), sym) ==> forall|i: int|
                0 <= i < v@.len() ==> voicing_from_frets(tuning, sym, #[trigger] v@[i]),
        r matches Ok(v) ==> (options.mode == VoicingMode::All ==> forall|sym: ChordSymbol, f: [Option<u8>; 8]|
            symbol_text_parts(trimmed(normalized_glyphs(input@)), sym) && #[trigger] chord_fretting(
                tuning,
                sym,
                options,
                f,
            ) ==> exists|i: int| 0 <= i < v@.len() && v@[i].frets@ == f@.take(tuning.spec_string_count() as int)),
        r matches Ok(v) ==> (options.mode == VoicingMode::All ==> forall|i: int, j: int|
            0 <= i < j < v@.len() ==> #[trigger] v@[i].frets@ != #[trigger] v@[j].frets@),
        options_valid(options) && options.mode is Curated && (exists|sym: ChordSymbol|
            symbol_text_parts(trimmed(normalized_glyphs(input@)), sym) && #[trigger] symbol_valid(sym))
            ==> r is Ok,
{
    if options.min_fret > MAX_STANDARD_FRET {
        return Err(
            range_error(
                "invalid min_fret '",
                options.min_fret as u32,
                "': standard guitar range is 0..=30",
            ),
        );
    }
    if options.max_fret > MAX_STANDARD_FRET {
        return Err(
            range_error(
                "invalid max_fret '",
                options.max_fret as u32,
                "': standard guitar range is 0..=30",
            ),
        );
    }
    if options.max_span > MAX_STANDARD_FRET {
        return Err(
            range_error(
                "invalid max_span '",
                options.max_span as u32,
                "': standard guitar range is 0..=30",
            ),
        );
    }
    if options.min_fret > options.max_fret {
        let mut msg: Vec<char> = Vec::new();
        push_str(&mut msg, "invalid fret range: min_fret '");
        push_decimal(&mut msg, options.min_fret as u32);
        push_str(&mut msg, "' cannot exceed max_fret '");
        push_decimal(&mut msg, options.max_fret as u32);
        push_str(&mut msg, "'");
        return Err(ChordClawError::from_chars(&msg));
    }
    if let VoicingMode::Curated { limit } = options.mode {
        if limit > MAX_LIMIT {
            let mut msg: Vec<char> = Vec::new();
            push_str(&mut msg, "invalid limit '");
            crate::text::push_usize(&mut msg, limit);
            push_str(
                &mut msg,
                "': curated voicing limit is 0..=1000; use --all for exhaustive output",
            );
            return Err(ChordClawError::from_chars(&msg));
        }
    }
    let chord = ChordSymbol::parse(input)?;
    proof {
        let text = trimmed(normalized_glyphs(input@));
        assert forall|sym: ChordSymbol| symbol_text_parts(text, sym) implies sym == chord by {
            crate::symbol::lemma_symbol_parts_unique(text, sym, chord);
        }
    }
    voicings_for_chord(&chord, tuning, options)
}

/// In the exhaustive mode every fretting of the chord the collection covers
/// is among the voicings.
proof fn lemma_all_listed(
    search: &VoicingSearch,
    chord: ChordSymbol,
    options: VoicingOptions,
    coll: VoicingCollector,
    ranked: Seq<VoicingCandidate>,
    out: Seq<Voicing>,
    order: Seq<usize>,
)
    requires
        !coll.exceeded,
        coll.voicings@.len() <= usize::MAX,
        forall|f: [Option<u8>; 8]| #[trigger] chord_fretting(search.tuning, chord, options, f) ==> covered(coll, f@),
        reorders(ranked, coll.voicings@, order),
        out.len() == ranked.len(),
        forall|m: int| 0 <= m < out.len() ==> (#[trigger] out[m]).frets@ == ranked[m].frets@.take(search.n as int),
        search.n == search.tuning.spec_string_count(),
    ensures
        forall|f: [Option<u8>; 8]|
            #[trigger] chord_fretting(search.tuning, chord, options, f) ==> exists|i: int|
                0 <= i < out.len() && out[i].frets@ == f@.take(search.tuning.spec_string_count() as int),
{
    let input = coll.voicings@;
    assert forall|f: [Option<u8>; 8]| #[trigger] chord_fretting(search.tuning, chord, options, f) implies exists|i: int|
        0 <= i < out.len() && out[i].frets@ == f@.take(search.tuning.spec_string_count() as int) by {
        assert(covered(coll, f@));
        let m = choose|m: int| 0 <= m < coll.voicings@.len() && #[trigger] coll.voicings@[m].frets@ == f@;
        crate::scoring::lemma_order_covers(order, input.len() as int, m);
        let t = choose|t: int| 0 <= t < order.len() && order[t] == m as usize;
        assert(same_candidate(ranked[t], input[order[t] as int]));
        assert(out[t].frets@ == f@.take(search.tuning.spec_string_count() as int));
    }
}

/// In the exhaustive mode no two voicings have the same frets.
proof fn lemma_all_distinct(
    search: &VoicingSearch,
    coll: VoicingCollector,
    ranked: Seq<VoicingCandidate>,
    out: Seq<Voicing>,
    order: Seq<usize>,
)
    requires
        coll.voicings@.len() <= usize::MAX,
        distinct_frets(coll.voicings@),
        forall|m: int| 0 <= m < coll.voicings@.len() ==> candidate_ok(#[trigger] coll.voicings@[m], search),
        reorders(ranked, coll.voicings@, order),
        out.len() == ranked.len(),
        forall|m: int| 0 <= m < out.len() ==> (#[trigger] out[m]).frets@ == ranked[m].frets@.take(search.n as int),
    ensures
        forall|i: int, j: int| 0 <= i < j < out.len() ==> #[trigger] out[i].frets@ != #[trigger] out[j].frets@,
{
    let input = coll.voicings@;
    assert forall|i: int, j: int| 0 <= i < j < out.len() implies #[trigger] out[i].frets@ != #[trigger] out[j].frets@ by {
        crate::scoring::lemma_order_distinct(order, input.len() as int, i, j);
        let x = order[i] as int;
        let y = order[j] as int;
        assert(same_candidate(ranked[i], input[x]));
        assert(same_candidate(ranked[j], input[y]));
        assert(candidate_scored(input[x], search) && candidate_scored(input[y], search));
        if out[i].frets@ == out[j].frets@ {
            assert(input[x].frets@ =~= input[y].frets@) by {
                assert forall|q: int| 0 <= q < 8 implies input[x].frets@[q] == input[y].frets@[q] by {
                    if q < search.n {
                        assert(out[i].frets@[q] == input[x].frets@[q]);
                        assert(out[j].frets@[q] == input[y].frets@[q]);
                    }
                }
            }
            if x < y {
                assert(input[x].frets@ != input[y].frets@);
            } else {
                assert(input[y].frets@ != input[x].frets@);
            }
        }
    }
}

/// A fretting of the chord in the window is one the search can build.
proof fn lemma_chord_fretting_built(s: &VoicingSearch, chord: ChordSymbol, f: [Option<u8>; 8])
    requires
        search_wf(s),
        search_for(s, chord),
        chord_fretting(s.tuning, chord, s.options, f),
    ensures
        buildable(f, s),
        forall|i: int| 0 <= i < s.n ==> s.per_string@[i]@.contains(#[trigger] f@[i]),
        forall|i: int| s.n <= i < 8 ==> #[trigger] f@[i] is None,
{
    let t = s.tuning;
    let n = s.n as int;
    let sounded = f@.take(n);
    let tones = chord_tones(chord);
    assert forall|i: int| 0 <= i < s.n implies s.per_string@[i]@.contains(#[trigger] f@[i]) by {
        let w = wanted_frets(t, i, s.target, s.options.min_fret as int, s.options.max_fret + 1);
        lemma_wanted_frets(t, i, s.target, s.options.min_fret as int, s.options.max_fret + 1);
        if let Some(x) = f@[i] {
            assert(sounded[i] == f@[i]);
            assert(s.target.has(fret_pitch(t, i, x as int)));
            assert(w.contains(Some(x)));
            let a = choose|a: int| 0 <= a < w.len() && w[a] == Some(x);
            assert(w.push(None)[a] == Some(x));
        } else {
            assert(w.push(None)[w.len() as int] == None::<u8>);
        }
    }
    assert forall|p: int| #[trigger] s.target.has(p) && !s.formula_target.has(p) implies frets_sound(t, sounded, p) by {
        let b = chord.bass->0;
        assert(p == note_pitch(b));
        let l = choose|l: int| #[trigger] lowest_string(t, sounded, l) && fret_pitch(t, l, sounded[l]->0 as int) == note_pitch(b);
    }
    let m1 = Set::new(|p: int| s.formula_target.has(p) && !frets_sound(t, sounded, p));
    assert(m1 =~= unsounded(t, sounded, tones)) by {
        assert forall|p: int| #[trigger] m1.contains(p) implies 0 <= p < 12 by {
            let i = choose|i: int| 0 <= i < tones.len() && #[trigger] tones[i].pitch_class == p;
            assert(tone_wf(s.formula.tones@[i]));
        }
    }
}

/// `f` is a fretting of `chord` on `t` within the fret window and span of
/// `options`: strings past the tuning's are muted, some string sounds, and
/// it sounds the chord.
pub open spec fn chord_fretting(t: Tuning, chord: ChordSymbol, options: VoicingOptions, f: [Option<u8>; 8]) -> bool {
    let n = t.spec_string_count() as int;
    &&& forall|i: int| 0 <= i < n ==> (#[trigger] f@[i] matches Some(x) ==> options.min_fret <= x <= options.max_fret)
    &&& forall|i: int| n <= i < 8 ==> #[trigger] f@[i] is None
    &&& sounding_count(f@, n) > 0
    &&& span_within(f, n, options.max_span as int)
    &&& sounds_chord(t, f@.take(n), chord)
}

/// Voicings of a parsed chord on `tuning`, for options already checked:
/// every fretting within the window and span that sounds the chord, scored
/// and ranked; a curated list of at most `limit`, or all of them up to a cap.
#[verifier::rlimit(80)]
#[verifier::spinoff_prover]
pub fn voicings_for_chord(chord: &ChordSymbol, tuning: Tuning, options: VoicingOptions) -> (r: Result<
    Vec<Voicing>,
    ChordClawError,
>)
    requires
        options_valid(options),
        -2 <= chord.root.accidental <= 2,
    ensures
        r matches Ok(v) ==> forall|i: int| 0 <= i < v@.len() ==> voicing_in_window(
            #[trigger] v@[i],
            tuning.spec_string_count() as int,
            options,
        ),
        r matches Ok(v) ==> forall|i: int| 0 <= i < v@.len() ==> sounds_chord(
            tuning,
            (#[trigger] v@[i]).frets@,
            *chord,
        ),
        r matches Ok(v) ==> (options.mode matches VoicingMode::Curated { limit } ==> v@.len() <= limit),
        r matches Ok(v) ==> (options.mode == VoicingMode::All ==> v@.len() <= MAX_ALL_VOICINGS),
        r matches Ok(v) ==> voicings_ranked(v@),
        r matches Ok(v) ==> forall|i: int| 0 <= i < v@.len() ==> voicing_from_frets(tuning, *chord, #[trigger] v@[i]),
        r is Err ==> options.mode == VoicingMode::All,
        r matches Ok(v) ==> (options.mode == VoicingMode::All ==> forall|f: [Option<u8>; 8]|
            #[trigger] chord_fretting(tuning, *chord, options, f) ==> exists|i: int|
                0 <= i < v@.len() && v@[i].frets@ == f@.take(tuning.spec_string_count() as int)),
        r matches Ok(v) ==> (options.mode == VoicingMode::All ==> forall|i: int, j: int|
            0 <= i < j < v@.len() ==> #[trigger] v@[i].frets@ != #[trigger] v@[j].frets@),
{
    if options.mode == (VoicingMode::Curated { limit: 0 }) {
        return Ok(Vec::new());
    }
    let search = voicing_search(chord, tuning, options);
    if search.bass_rule.required().is_some() && search.suffix_required_bass_min[0].is_none() {
        proof {
            assert forall|f: [Option<u8>; 8]| #[trigger] chord_fretting(tuning, *chord, options, f) implies false by {
                lemma_chord_fretting_built(&search, *chord, f);
                let q = search.bass_rule->Required_0;
                let sounded = f@.take(search.n as int);
                let l = choose|l: int|
                    #[trigger] lowest_string(search.tuning, sounded, l) && fret_pitch(search.tuning, l, sounded[l]->0 as int)
                        == q.spec_value();
                assert(sounded[l] == f@[l]);
                let kk = choose|kk: int| 0 <= kk < search.per_string@[l]@.len() && search.per_string@[l]@[kk] == f@[l];
                assert(covered_choice(search.suffix_sets@, search.suffix_required_bass_min@, search.tuning, search.bass_rule, 0, l, search.per_string@[l]@[kk]));
            }
        }
        return Ok(Vec::new());
    }
    let (all, limit) = match options.mode {
        VoicingMode::All => (true, MAX_ALL_VOICINGS),
        VoicingMode::Curated { limit } => (false, limit),
    };
    let mut collector = VoicingCollector::new(all, limit);
    let mut frets: [Option<u8>; 8] = [None; 8];
    let start = initial_state();
    proof {
        lemma_state_start(start, search.tuning, frets@);
    }
    proof {
        assert(frets@ =~= Seq::new(8, |i: int| None::<u8>));
    }
    let ghost empty_frets = frets@;
    enumerate_voicings(&search, 0, &mut frets, start, &mut collector);
    proof {
        if all {
            assert forall|f: [Option<u8>; 8]| #[trigger] chord_fretting(tuning, *chord, options, f) implies covered(
                collector,
                f@,
            ) by {
                lemma_chord_fretting_built(&search, *chord, f);
                assert(completes(&search, empty_frets, 0, f));
            }
        }
    }
    let ghost coll = collector;
    let candidates = if all {
        if collector.exceeded {
            let mut msg: Vec<char> = Vec::new();
            push_str(&mut msg, "voicing result exceeds --all cap of ");
            crate::text::push_usize(&mut msg, MAX_ALL_VOICINGS);
            push_str(&mut msg, "; narrow the search with --min-fret, --max-fret, or --max-span");
            return Err(ChordClawError::from_chars(&msg));
        }
        collector.voicings
    } else {
        let ceiling = collector.ceiling;
        let mut kept: Vec<VoicingCandidate> = Vec::new();
        let mut i: usize = 0;
        while i < collector.voicings.len()
            invariant
                0 <= i <= collector.voicings@.len(),
                collector_wf(&collector, &search),
                forall|k: int| 0 <= k < kept@.len() ==> candidate_ok(#[trigger] kept@[k], &search),
            decreases collector.voicings@.len() - i,
        {
            if collector.voicings[i].score <= ceiling {
                let c = copy_candidate(&collector.voicings[i]);
                assert(candidate_ok(collector.voicings@[i as int], &search));
                kept.push(c);
            }
            i += 1;
        }
        kept
    };
    let ghost input = candidates@;
    let ranked = rank_voicing_candidates(candidates, options);
    let mut out: Vec<Voicing> = Vec::new();
    let mut k: usize = 0;
    while k < ranked.len()
        invariant
            0 <= k <= ranked@.len(),
            search_wf(&search),
            search.options == options,
            search.n == tuning.spec_string_count(),
            forall|k: int| 0 <= k < input.len() ==> candidate_ok(#[trigger] input[k], &search),
            forall|k: int| 0 <= k < ranked@.len() ==> from_input(#[trigger] ranked@[k], input),
            out@.len() == k,
            forall|m: int| 0 <= m < out@.len() ==> voicing_in_window(#[trigger] out@[m], search.n as int, options),
            forall|m: int| 0 <= m < out@.len() ==> (#[trigger] out@[m]).score == ranked@[m].score,
            scores_ascending(ranked@),
            search.tuning == tuning,
            search_for(&search, *chord),
            forall|m: int| 0 <= m < out@.len() ==> sounds_chord(tuning, (#[trigger] out@[m]).frets@, *chord),
            forall|m: int| 0 <= m < out@.len() ==> voicing_from_frets(tuning, *chord, #[trigger] out@[m]),
            forall|m: int| 0 <= m < out@.len() ==> (#[trigger] out@[m]).frets@ == ranked@[m].frets@.take(search.n as int),
        decreases ranked@.len() - k,
    {
        assert(from_input(ranked@[k as int], input));
        proof {
            let j = choose|j: int| 0 <= j < input.len() && same_candidate(ranked@[k as int], #[trigger] input[j]);
            assert(candidate_ok(input[j], &search));
            assert(candidate_ok(ranked@[k as int], &search));
        }
        let v = materialize_voicing(&ranked[k], &search);
        proof {
            let c = ranked@[k as int];
            assert forall|i: int| 0 <= i < search.n implies (#[trigger] v.frets@[i] matches Some(f) ==> options.min_fret <= f
                <= options.max_fret) by {
                assert(v.frets@[i] == c.frets@[i]);
            }
            assert forall|i: int, j: int|
                0 <= i < search.n && 0 <= j < search.n implies (#[trigger] v.frets@[i] matches Some(a) ==> (#[trigger] v.frets@[j] matches Some(
                    b,
                ) ==> (a > 0 && b > 0 ==> a - b <= options.max_span))) by {
                assert(v.frets@[i] == c.frets@[i]);
                assert(v.frets@[j] == c.frets@[j]);
            }
            lemma_search_sounds_chord(&search, *chord, v.frets@);
            assert(candidate_scored(c, &search));
            assert(search.formula_target.pitches() =~= tone_pitches(chord_tones(*chord)));
            let b = choose|b: VoicingScoreBreakdown|
                #[trigger] voicing_breakdown_of(
                    search.tuning,
                    search.bass_rule,
                    search.formula.tones@,
                    search.formula_target.pitches(),
                    c.frets@.take(search.n as int),
                    b,
                ) && c.score == b.total;
            assert(voicing_breakdown_of(
                tuning,
                search.bass_rule,
                chord_tones(*chord),
                tone_pitches(chord_tones(*chord)),
                v.frets@,
                b,
            ));
            assert(voicing_from_frets(tuning, *chord, v));
        }
        let ghost before = out@;
        out.push(v);
        proof {
            assert forall|m: int| 0 <= m < out@.len() implies voicing_in_window(#[trigger] out@[m], search.n as int, options)
                && out@[m].score == ranked@[m].score && sounds_chord(tuning, out@[m].frets@, *chord)
                && voicing_from_frets(tuning, *chord, out@[m]) && out@[m].frets@ == ranked@[m].frets@.take(search.n as int) by {
                if m < k {
                    assert(out@[m] == before[m]);
                }
            }
        }
        k += 1;
    }
    assert forall|i: int, j: int| 0 <= i < j < out@.len() implies #[trigger] out@[i].score
        <= #[trigger] out@[j].score by {
        assert(ranked@[i].score <= ranked@[j].score);
    }
    proof {
        if all {
            let order = choose|order: Seq<usize>| #[trigger] reorders(ranked@, input, order);
            assert(input == coll.voicings@);
            assert(coll.voicings@.len() <= usize::MAX);
            lemma_all_listed(&search, *chord, options, coll, ranked@, out@, order);
            lemma_all_distinct(&search, coll, ranked@, out@, order);
            assert(search.tuning == tuning);
            assert forall|f: [Option<u8>; 8]| #[trigger] chord_fretting(tuning, *chord, options, f) implies exists|i: int|
                0 <= i < out@.len() && out@[i].frets@ == f@.take(tuning.spec_string_count() as int) by {
                assert(chord_fretting(search.tuning, *chord, options, f));
            }
        }
        assert(all == (options.mode == VoicingMode::All));
    }
    let ghost listed = options.mode == VoicingMode::All ==> forall|f: [Option<u8>; 8]|
        #[trigger] chord_fretting(tuning, *chord, options, f) ==> exists|i: int|
            0 <= i < out@.len() && out@[i].frets@ == f@.take(tuning.spec_string_count() as int);
    assert(listed);
    Ok(out)
}


/// What scoring a fretting of one chord on one tuning needs.
pub struct VoicingScoreContext {
    formula: ChordFormula,
    target: PitchSet,
    formula_target: PitchSet,
    bass_rule: BassRule,
    tuning: Tuning,
}

impl VoicingScoreContext {
    #[verifier::type_invariant]
    spec fn inv(self) -> bool {
        &&& self.formula.wf()
        &&& self.target.wf()
        &&& self.formula_target.wf()
    }

    /// The tuning the context scores for.
    pub closed spec fn spec_tuning(self) -> Tuning {
        self.tuning
    }

    /// The pitch classes a voicing of the chord may sound.
    pub closed spec fn spec_target(self) -> Set<int> {
        self.target.pitches()
    }

    /// The tones of the chord's formula.
    pub closed spec fn spec_tones(self) -> Seq<ChordTone> {
        self.formula.tones@
    }

    /// The pitch classes of the chord's formula.
    pub closed spec fn spec_formula_pitches(self) -> Set<int> {
        self.formula_target.pitches()
    }

    /// The bass rule the chord is scored by.
    pub closed spec fn spec_bass_rule(self) -> BassRule {
        self.bass_rule
    }

    /// Whether `frets` is a voicing the context can score: one fret or mute
    /// per string, frets within the standard range, every sounding pitch in
    /// the chord, and the formula pitches left out omissible.
    pub open spec fn scorable(self, frets: Seq<Option<u8>>) -> bool {
        let missing = Set::new(
            |p: int| self.spec_formula_pitches().contains(p) && !frets_sound(self.spec_tuning(), frets, p),
        );
        &&& frets.len() == self.spec_tuning().spec_string_count()
        &&& forall|i: int|
            0 <= i < frets.len() ==> (#[trigger] frets[i] matches Some(f) ==> f <= 30
                && self.spec_target().contains(fret_pitch(self.spec_tuning(), i, f as int)))
        &&& missing == Set::<int>::empty() || omission_allowed(self.spec_tones(), missing)
    }

    /// The context scores `chord`: its tones, its pitches with the slash
    /// bass, and the pitches of its tones.
    pub open spec fn scores_chord(self, chord: ChordSymbol) -> bool {
        &&& self.spec_tones() == chord_tones(chord)
        &&& bass_rule_is(self.spec_bass_rule(), chord, self.spec_tuning())
        &&& self.spec_target() == Set::new(|p: int| chord_pitch(chord_tones(chord), chord.bass, p))
        &&& self.spec_formula_pitches() == Set::new(
            |p: int| exists|i: int| 0 <= i < chord_tones(chord).len() && #[trigger] chord_tones(chord)[i].pitch_class == p,
        )
    }

    /// The scoring context of a chord symbol on `tuning`; an error where the
    /// symbol does not parse.
    pub fn new(chord: &str, tuning: Tuning) -> (r: Result<Self, ChordClawError>)
        ensures
            r is Ok <==> exists|sym: ChordSymbol|
                symbol_text_parts(trimmed(normalized_glyphs(chord@)), sym) && #[trigger] symbol_valid(sym),
            r matches Ok(c) ==> c.spec_tuning() == tuning && exists|sym: ChordSymbol|
                symbol_text_parts(trimmed(normalized_glyphs(chord@)), sym) && symbol_valid(sym)
                    && #[trigger] c.scores_chord(sym),
    {
        let symbol = ChordSymbol::parse(chord)?;
        let formula = symbol.formula();
        let formula_target = formula.pitch_set();
        let target = required_pitch_set(&symbol, &formula);
        let bass_rule = bass_rule_for_chord(&symbol, &tuning);
        let context = VoicingScoreContext { formula, target, formula_target, bass_rule, tuning };
        proof {
            assert(context.spec_target() =~= Set::new(
                |p: int| chord_pitch(chord_tones(symbol), symbol.bass, p),
            )) by {
                assert forall|p: int| chord_pitch(chord_tones(symbol), symbol.bass, p) implies 0 <= p < 12 by {
                    if exists|i: int| 0 <= i < chord_tones(symbol).len() && #[trigger] chord_tones(symbol)[i].pitch_class == p {
                        let i = choose|i: int| 0 <= i < chord_tones(symbol).len() && #[trigger] chord_tones(symbol)[i].pitch_class == p;
                        assert(tone_wf(formula.tones@[i]));
                    }
                }
            }
            assert(context.spec_formula_pitches() =~= Set::new(
                |p: int| exists|i: int| 0 <= i < chord_tones(symbol).len() && #[trigger] chord_tones(symbol)[i].pitch_class == p,
            )) by {
                assert forall|i: int| 0 <= i < chord_tones(symbol).len() implies #[trigger] chord_tones(
                    symbol,
                )[i].pitch_class < 12 by {
                    assert(tone_wf(formula.tones@[i]));
                }
            }
            assert(context.scores_chord(symbol));
        }
        Ok(context)
    }

    /// Every term of the score of `frets` as a voicing of the chord; an
    /// error for the wrong number of strings, a fret out of range, a pitch
    /// outside the chord, or missing tones that cannot be read as omitted.
    pub fn breakdown(&self, frets: &[Option<u8>]) -> (r: Result<VoicingScoreBreakdown, ChordClawError>)
        ensures
            r is Ok ==> frets@.len() == self.spec_tuning().spec_string_count(),
            frets@.len() != self.spec_tuning().spec_string_count() ==> (r matches Err(e) && e.spec_message()
                == "voicing has "@ + decimal(frets@.len()) + " strings but tuning has "@ + decimal(
                self.spec_tuning().spec_string_count(),
            )),
            (exists|i: int| 0 <= i < frets@.len() && (#[trigger] frets@[i] matches Some(f) && f > 30)) ==> r is Err,
            r is Ok <==> self.scorable(frets@),
            r matches Ok(b) ==> b.total == u32::MAX || b.total == breakdown_total(b),
            r matches Ok(b) ==> voicing_breakdown_of(
                self.spec_tuning(),
                self.spec_bass_rule(),
                self.spec_tones(),
                self.spec_formula_pitches(),
                frets@,
                b,
            ),
    {
        proof {
            use_type_invariant(self);
        }
        let n = self.tuning.string_count();
        if frets.len() != n {
            let mut msg: Vec<char> = Vec::new();
            push_str(&mut msg, "voicing has ");
            crate::text::push_usize(&mut msg, frets.len());
            push_str(&mut msg, " strings but tuning has ");
            crate::text::push_usize(&mut msg, n);
            return Err(ChordClawError::from_chars(&msg));
        }
        let mut array: [Option<u8>; 8] = [None; 8];
        let mut played = PitchSet::empty();
        let mut i: usize = 0;
        while i < n
            invariant
                0 <= i <= n <= 8,
                n == self.tuning.spec_string_count(),
                frets@.len() == n,
                played.wf(),
                self.target.wf(),
                frets_ok(array, n as int),
                forall|k: int| 0 <= k < i ==> !(#[trigger] frets@[k] matches Some(f) && f > 30),
                forall|k: int| 0 <= k < i ==> (#[trigger] frets@[k] matches Some(f) ==> self.target.has(
                    fret_pitch(self.tuning, k, f as int),
                )),
                forall|k: int| 0 <= k < i ==> #[trigger] array@[k] == frets@[k],
                forall|k: int| i <= k < 8 ==> #[trigger] array@[k] is None,
                forall|p: int| #[trigger] played.has(p) <==> frets_sound(self.tuning, frets@.take(i as int), p),
            decreases n - i,
        {
            let ghost before = frets@.take(i as int);
            let ghost after = frets@.take(i + 1);
            assert(after == before.push(frets@[i as int]));
            let ghost played_before = played;
            if let Some(f) = frets[i] {
                if f > MAX_STANDARD_FRET {
                    return Err(range_error("invalid fret '", f as u32, "': standard guitar range is 0..=30"));
                }
                let pitch = self.tuning.pitch_at(i, f);
                if !self.target.contains(pitch) {
                    let mut msg: Vec<char> = Vec::new();
                    push_str(&mut msg, "voicing pitch ");
                    NoteName::simple_for_pitch(pitch, false).push_text(&mut msg);
                    push_str(&mut msg, " is outside the chord");
                    return Err(ChordClawError::from_chars(&msg));
                }
                played.insert(pitch);
            }
            proof {
                assert forall|p: int| #[trigger] played.has(p) <==> frets_sound(self.tuning, after, p) by {
                    if frets_sound(self.tuning, after, p) {
                        let k = choose|k: int|
                            0 <= k < after.len() && (#[trigger] after[k] matches Some(f) && fret_pitch(self.tuning, k, f as int) == p);
                        if k < i {
                            assert(before[k] == after[k]);
                        }
                    }
                    if played_before.has(p) {
                        let k = choose|k: int|
                            0 <= k < before.len() && (#[trigger] before[k] matches Some(f) && fret_pitch(self.tuning, k, f as int) == p);
                        assert(after[k] == before[k]);
                    }
                    if frets@[i as int] matches Some(f) && p == fret_pitch(self.tuning, i as int, f as int) {
                        assert(after[i as int] == frets@[i as int]);
                    }
                }
            }
            array[i] = frets[i];
            i += 1;
        }
        assert(frets@.take(n as int) == frets@);
        let missing = self.formula_target.difference(played);
        proof {
            let spec_missing = Set::new(
                |p: int| self.spec_formula_pitches().contains(p) && !frets_sound(self.spec_tuning(), frets@, p),
            );
            assert(missing.pitches() =~= spec_missing);
            if missing.bits == 0 {
                assert forall|p: int| !missing.has(p) by {
                    if 0 <= p < 12 {
                        let q = p as u16;
                        assert(!bit_set(0u16, q)) by (bit_vector);
                    }
                }
                assert(spec_missing =~= Set::<int>::empty());
            }
        }
        let mask = match inferred_omission_degrees(missing, &self.formula) {
            Some(m) => m,
            None => {
                proof {
                    if forall|q: u16| q < 12 ==> !bit_set(missing.bits, q) {
                        assert forall|q: u16| q < 12 implies bit_set(missing.bits, q) == bit_set(0u16, q) by {
                            assert(!bit_set(0u16, q)) by (bit_vector);
                        }
                        lemma_bits_ext(missing.bits, 0);
                    }
                    let q = choose|q: u16| q < 12 && bit_set(missing.bits, q);
                    assert(missing.pitches().contains(q as int));
                }
                let mut msg: Vec<char> = Vec::new();
                push_str(&mut msg, "voicing leaves out chord tones that cannot be omitted");
                return Err(ChordClawError::from_chars(&msg));
            },
        };
        let omissions = omission_list(mask);
        let profile = fret_profile(&array, n);
        let b = voicing_score_breakdown(&array, &self.tuning, self.bass_rule, &self.formula, &omissions, n, &profile);
        proof {
            let spec_missing = Set::new(
                |p: int| self.spec_formula_pitches().contains(p) && !frets_sound(self.spec_tuning(), frets@, p),
            );
            assert(array@ =~= padded(frets@));
            if missing.bits != 0 {
                lemma_some_member(missing);
                let q = choose|q: int| #[trigger] missing.has(q);
                assert(spec_missing.contains(q));
            }
            assert(omissions@ == omission_seq(missing_mask(self.spec_tones(), spec_missing) as u8));
        }
        Ok(b)
    }
}

/// The eight-string form of `frets`: its strings, then muted ones.
pub open spec fn padded(frets: Seq<Option<u8>>) -> Seq<Option<u8>> {
    Seq::new(8, |i: int| if i < frets.len() {
        frets[i]
    } else {
        None
    })
}

/// The omission mask of the formula pitches `missing` that a voicing leaves
/// out: none when it leaves none out.
pub open spec fn missing_mask(tones: Seq<ChordTone>, missing: Set<int>) -> int {
    if missing == Set::<int>::empty() {
        0
    } else {
        omission_mask_for(tones, missing)
    }
}

/// `b` is the breakdown of `frets` for a chord with `tones` and formula
/// pitches `pitches` under `rule` on `t`: the terms of its profile and of
/// its frets, with the omissions of the formula pitches it leaves out.
pub open spec fn voicing_breakdown_of(
    t: Tuning,
    rule: BassRule,
    tones: Seq<ChordTone>,
    pitches: Set<int>,
    frets: Seq<Option<u8>>,
    b: VoicingScoreBreakdown,
) -> bool {
    let n = frets.len() as int;
    let missing = Set::new(|p: int| pitches.contains(p) && !frets_sound(t, frets, p));
    exists|p: FretProfile|
        profile_of(p, padded(frets), n) && profile_wf(p, n) && #[trigger] breakdown_of(
            b,
            padded(frets),
            t,
            rule,
            tones,
            omission_seq(missing_mask(tones, missing) as u8),
            n,
            p,
        )
}

/// `frets` is a voicing of `chord` on `t` that can be scored: one fret or
/// mute per string, frets within the standard range, every sounding pitch a
/// pitch of the chord, and the tones left out ones a voicing may omit.
pub open spec fn scorable_voicing(t: Tuning, chord: ChordSymbol, frets: Seq<Option<u8>>) -> bool {
    let tones = chord_tones(chord);
    let missing = Set::new(
        |p: int| (exists|i: int| 0 <= i < tones.len() && #[trigger] tones[i].pitch_class == p) && !frets_sound(
            t,
            frets,
            p,
        ),
    );
    &&& frets.len() == t.spec_string_count()
    &&& forall|i: int|
        0 <= i < frets.len() ==> (#[trigger] frets[i] matches Some(f) ==> f <= 30 && chord_pitch(
            tones,
            chord.bass,
            fret_pitch(t, i, f as int),
        ))
    &&& missing == Set::<int>::empty() || omission_allowed(tones, missing)
}

/// A context that scores `chord` scores exactly its scorable voicings.
proof fn lemma_scorable_voicing(c: VoicingScoreContext, chord: ChordSymbol, frets: Seq<Option<u8>>)
    requires
        c.scores_chord(chord),
    ensures
        c.scorable(frets) == scorable_voicing(c.spec_tuning(), chord, frets),
{
    let missing_c = Set::new(
        |p: int| c.spec_formula_pitches().contains(p) && !frets_sound(c.spec_tuning(), frets, p),
    );
    let tones = chord_tones(chord);
    let missing_v = Set::new(
        |p: int| (exists|i: int| 0 <= i < tones.len() && #[trigger] tones[i].pitch_class == p) && !frets_sound(
            c.spec_tuning(),
            frets,
            p,
        ),
    );
    assert(missing_c =~= missing_v);
}

/// The score breakdown of `frets` as a voicing of `chord` on `tuning`; an
/// error where the symbol does not parse or `frets` is not a scorable
/// voicing of it.
pub fn voicing_score_breakdown_with_tuning(chord: &str, tuning: Tuning, frets: &[Option<u8>]) -> (r:
    Result<VoicingScoreBreakdown, ChordClawError>)
    ensures
        r is Ok <==> exists|sym: ChordSymbol|
            symbol_text_parts(trimmed(normalized_glyphs(chord@)), sym) && symbol_valid(sym)
                && #[trigger] scorable_voicing(tuning, sym, frets@),
        r is Ok ==> frets@.len() == tuning.spec_string_count(),
        (exists|sym: ChordSymbol| symbol_text_parts(trimmed(normalized_glyphs(chord@)), sym) && #[trigger] symbol_valid(sym))
            && frets@.len() != tuning.spec_string_count() ==> (r matches Err(e) && e.spec_message()
            == "voicing has "@ + decimal(frets@.len()) + " strings but tuning has "@ + decimal(
            tuning.spec_string_count(),
        )),
        r matches Ok(b) ==> b.total == u32::MAX || b.total == breakdown_total(b),
        r matches Ok(b) ==> forall|sym: ChordSymbol|
            symbol_text_parts(trimmed(normalized_glyphs(chord@)), sym) && symbol_valid(sym) ==> exists|rule: BassRule|
                bass_rule_is(rule, sym, tuning) && #[trigger] voicing_breakdown_of(
                    tuning,
                    rule,
                    chord_tones(sym),
                    tone_pitches(chord_tones(sym)),
                    frets@,
                    b,
                ),
{
    let context = match VoicingScoreContext::new(chord, tuning) {
        Ok(c) => c,
        Err(e) => {
            return Err(e);
        },
    };
    let ghost text = trimmed(normalized_glyphs(chord@));
    let ghost sym = choose|sym: ChordSymbol|
        symbol_text_parts(text, sym) && symbol_valid(sym) && #[trigger] context.scores_chord(sym);
    proof {
        lemma_scorable_voicing(context, sym, frets@);
        assert forall|other: ChordSymbol| symbol_text_parts(text, other) && symbol_valid(other) implies other
            == sym by {
            crate::symbol::lemma_symbol_parts_unique(text, other, sym);
        }
    }
    let r = context.breakdown(frets);
    proof {
        if let Ok(b) = r {
            assert(context.spec_formula_pitches() =~= tone_pitches(chord_tones(sym)));
            assert(voicing_breakdown_of(
                tuning,
                context.spec_bass_rule(),
                chord_tones(sym),
                tone_pitches(chord_tones(sym)),
                frets@,
                b,
            ));
        }
    }
    r
}

} // verus!
