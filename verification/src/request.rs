use vstd::prelude::*;

use crate::formula::{interval_text, tone_wf, ChordFormula};
use crate::identify::{AnalysisClass, ChordAnalysis, IdentifyResult};
use crate::notes::{
    fingering_width, instrument_for_count, instrument_named, instrument_strings, lowered, note_pitch,
    octaves_consistent, tuning_holds, tuning_text_notes,
    note_text, supported_count, Fingering, Instrument, Tuning,
};
use crate::parse::normalized_glyphs;
use crate::symbol::ChordSymbol;
use crate::text::{
    chars_to_string, decimal_text_value, parse_decimal_range, push_str, str_to_chars, trimmed,
};
use crate::voicing::{VoicingMode, VoicingOptions};
use crate::{
    ChordClawError, ChordClawErrorKind, DEFAULT_LIMIT, DEFAULT_MAX_FRET, DEFAULT_MAX_SPAN,
    DEFAULT_MIN_FRET, MAX_LIMIT, MAX_STANDARD_FRET,
};

verus! {

/// The value of the decimal text `value`, at most `max`; `None` for
/// anything else.
fn parse_bounded_decimal(value: &str, max: u64) -> (r: Option<u64>)
    requires
        max < 0x1_0000_0000_0000,
    ensures
        r matches Some(v) ==> decimal_text_value(value@, max as int) == Some(v as int),
        r is None ==> decimal_text_value(value@, max as int) is None,
{
    let chars = str_to_chars(value);
    assert(chars@.subrange(0, chars@.len() as int) == chars@);
    parse_decimal_range(chars.as_slice(), 0, chars.len(), max)
}

/// The message `invalid {name}: '{value}'`.
fn invalid_value(name: &str, value: &str) -> (e: ChordClawError)
    ensures
        e.spec_kind() == ChordClawErrorKind::Data,
        e.spec_message() == "invalid "@ + name@ + ": '"@ + value@ + "'"@,
{
    let mut msg: Vec<char> = Vec::new();
    push_str(&mut msg, "invalid ");
    push_str(&mut msg, name);
    push_str(&mut msg, ": '");
    push_str(&mut msg, value);
    push_str(&mut msg, "'");
    ChordClawError::from_chars(&msg)
}

/// An optional fret-like option: the default when absent, else the decimal
/// value up to 255, else a data error naming the option.
pub fn option_u8(name: &str, value: Option<&str>, default: u8) -> (r: Result<u8, ChordClawError>)
    ensures
        value is None ==> r == Ok::<u8, ChordClawError>(default),
        value matches Some(v) ==> (r is Ok <==> decimal_text_value(v@, 255) is Some),
        value matches Some(v) ==> (r matches Ok(n) ==> decimal_text_value(v@, 255) == Some(n as int)),
        r matches Err(e) ==> e.spec_kind() == ChordClawErrorKind::Data,
{
    match value {
        None => Ok(default),
        Some(v) => match parse_bounded_decimal(v, 255) {
            Some(n) => Ok(n as u8),
            None => Err(invalid_value(name, v)),
        },
    }
}

/// An optional count option: the default when absent, else the decimal
/// value, else a data error naming the option.
pub fn option_count(name: &str, value: Option<&str>, default: usize) -> (r: Result<usize, ChordClawError>)
    ensures
        value is None ==> r == Ok::<usize, ChordClawError>(default),
        value matches Some(v) ==> (r is Ok <==> decimal_text_value(v@, 0xffff_ffff) is Some),
        value matches Some(v) ==> (r matches Ok(n) ==> decimal_text_value(v@, 0xffff_ffff) == Some(n as int)),
        r matches Err(e) ==> e.spec_kind() == ChordClawErrorKind::Data,
{
    match value {
        None => Ok(default),
        Some(v) => match parse_bounded_decimal(v, 0xffff_ffff) {
            Some(n) => Ok(n as usize),
            None => Err(invalid_value(name, v)),
        },
    }
}

/// A usage error carrying `message`.
fn usage_error(message: &str) -> (e: ChordClawError)
    ensures
        e.spec_kind() == ChordClawErrorKind::Usage,
{
    let mut msg: Vec<char> = Vec::new();
    push_str(&mut msg, message);
    ChordClawError::with_kind(ChordClawErrorKind::Usage, chars_to_string(&msg))
}

/// The highest fret scanned when none is given: the whole neck when the
/// lowest fret is at or above the default highest one.
pub open spec fn default_max_fret_for(min_fret: int, max_given: bool) -> int {
    if !max_given && min_fret >= DEFAULT_MAX_FRET {
        MAX_STANDARD_FRET as int
    } else {
        DEFAULT_MAX_FRET as int
    }
}

/// Voicing options from the command-line values: `--all` excludes
/// `--limit`; absent values take their defaults, and a missing highest fret
/// scans through fret 30 when the lowest fret is 12 or more; a limit above
/// 1000 is a usage error.
pub fn voicing_options_from_args(
    min_fret: Option<&str>,
    max_fret: Option<&str>,
    max_span: Option<&str>,
    limit: Option<&str>,
    all: bool,
) -> (r: Result<VoicingOptions, ChordClawError>)
    ensures
        all && limit is Some ==> (r matches Err(e) && e.spec_kind() == ChordClawErrorKind::Usage),
        r matches Ok(o) ==> (min_fret is None ==> o.min_fret == DEFAULT_MIN_FRET),
        r matches Ok(o) ==> (max_fret is None ==> o.max_fret == default_max_fret_for(
            o.min_fret as int,
            false,
        )),
        r matches Ok(o) ==> (max_span is None ==> o.max_span == DEFAULT_MAX_SPAN),
        r matches Ok(o) ==> (min_fret matches Some(v) ==> decimal_text_value(v@, 255) == Some(o.min_fret as int)),
        r matches Ok(o) ==> (max_fret matches Some(v) ==> decimal_text_value(v@, 255) == Some(o.max_fret as int)),
        r matches Ok(o) ==> (max_span matches Some(v) ==> decimal_text_value(v@, 255) == Some(o.max_span as int)),
        r matches Ok(o) ==> (all <==> o.mode == VoicingMode::All),
        r matches Ok(o) ==> (o.mode matches VoicingMode::Curated { limit: n } ==> n <= MAX_LIMIT
            && (limit is None ==> n == DEFAULT_LIMIT) && (limit matches Some(v)
            ==> decimal_text_value(v@, 0xffff_ffff) == Some(n as int))),
{
    if all && limit.is_some() {
        return Err(usage_error("--all cannot be used with --limit"));
    }
    let min = option_u8("min_fret", min_fret, DEFAULT_MIN_FRET)?;
    let default_max = if max_fret.is_none() && min >= DEFAULT_MAX_FRET {
        MAX_STANDARD_FRET
    } else {
        DEFAULT_MAX_FRET
    };
    let max = option_u8("max_fret", max_fret, default_max)?;
    let span = option_u8("max_span", max_span, DEFAULT_MAX_SPAN)?;
    let count = option_count("limit", limit, DEFAULT_LIMIT)?;
    if count > MAX_LIMIT {
        let mut msg: Vec<char> = Vec::new();
        push_str(&mut msg, "invalid limit '");
        crate::text::push_usize(&mut msg, count);
        push_str(
            &mut msg,
            "': curated voicing limit is 0..=1000; use --all for exhaustive output",
        );
        return Err(ChordClawError::with_kind(ChordClawErrorKind::Usage, chars_to_string(&msg)));
    }
    Ok(
        VoicingOptions {
            min_fret: min,
            max_fret: max,
            max_span: span,
            mode: if all {
                VoicingMode::All
            } else {
                VoicingMode::Curated { limit: count }
            },
        },
    )
}

/// What reading the tuning text `input` gives, for `instrument` when there
/// is one: standard tuning for an empty text or `standard`, else the named
/// notes when they are well formed and their number fits.
pub open spec fn tuning_text_read(
    input: Seq<char>,
    instrument: Option<Instrument>,
    r: Result<Tuning, ChordClawError>,
) -> bool {
    let text = trimmed(normalized_glyphs(input));
    if text.len() == 0 || lowered(text) == lowered("standard"@) {
        r is Ok
    } else {
        match tuning_text_notes(text) {
            None => r is Err,
            Some(list) => (r is Ok <==> octaves_consistent(list) && match instrument {
                Some(i) => list.len() == instrument_strings(i),
                None => supported_count(list.len() as int),
            }) && (r matches Ok(t) ==> tuning_holds(t, list)),
        }
    }
}

/// The tuning a command uses: the given tuning, read for the given
/// instrument when there is one; else the instrument's standard tuning; else
/// for a fingering the instrument its width names, and six-string guitar
/// otherwise.
pub fn resolve_tuning(instrument: Option<&str>, tuning: Option<&str>, fingering: Option<&str>) -> (r:
    Result<Tuning, ChordClawError>)
    ensures
        r matches Ok(t) ==> supported_count(t.spec_string_count() as int),
        match instrument {
            Some(text) => match instrument_named(lowered(trimmed(text@))) {
                None => r is Err,
                Some(i) => {
                    &&& tuning is None ==> r is Ok
                    &&& r matches Ok(t) ==> t.spec_instrument() == i && t.spec_string_count()
                        == instrument_strings(i)
                    &&& tuning matches Some(tt) ==> tuning_text_read(tt@, Some(i), r)
                },
            },
            None => match (tuning, fingering) {
                (None, None) => r matches Ok(t) && t.spec_instrument() == Instrument::Guitar
                    && t.spec_string_count() == 6,
                (None, Some(text)) => {
                    let width = fingering_width(trimmed(text@));
                    &&& r is Ok <==> supported_count(width as int)
                    &&& r matches Ok(t) ==> t.spec_instrument() == instrument_for_count(width as int)
                        && t.spec_string_count() == width
                },
                (Some(tt), _) => tuning_text_read(tt@, None, r),
            },
        },
{
    let instrument = match instrument {
        Some(text) => Some(Instrument::parse(text)?),
        None => None,
    };
    if let Some(text) = tuning {
        return match instrument {
            Some(i) => Tuning::parse_for_instrument(text, i),
            None => Tuning::parse(text),
        };
    }
    let chosen = match instrument {
        Some(i) => i,
        None => match fingering {
            Some(text) => {
                let count = Fingering::string_count_from_input(text)?;
                Instrument::from_string_count(count)?
            },
            None => Instrument::Guitar,
        },
    };
    Ok(chosen.default_tuning())
}

/// A slash bass that sounds at no pitch of the formula.
pub open spec fn bass_outside_formula(symbol: ChordSymbol, formula: ChordFormula) -> bool {
    symbol.bass matches Some(b) && forall|j: int|
        0 <= j < formula.tones@.len() ==> #[trigger] formula.tones@[j].pitch_class != note_pitch(b)
}

/// The notes an analysis prints: the formula's notes, then a slash bass
/// that is not a chord tone.
pub fn analysis_notes(symbol: &ChordSymbol, formula: &ChordFormula) -> (v: Vec<String>)
    requires
        formula.wf(),
    ensures
        v@.len() == formula.tones@.len() + if bass_outside_formula(*symbol, *formula) {
            1int
        } else {
            0int
        },
        forall|i: int| 0 <= i < formula.tones@.len() ==> #[trigger] v@[i]@ == note_text(
            formula.tones@[i].note,
        ),
        bass_outside_formula(*symbol, *formula) ==> v@[formula.tones@.len() as int]@ == note_text(
            symbol.bass->0,
        ),
{
    let mut notes: Vec<String> = Vec::new();
    let mut i: usize = 0;
    while i < formula.tones.len()
        invariant
            0 <= i <= formula.tones@.len(),
            notes@.len() == i,
            forall|k: int| 0 <= k < i ==> #[trigger] notes@[k]@ == note_text(formula.tones@[k].note),
        decreases formula.tones@.len() - i,
    {
        notes.push(formula.tones[i].note.to_string());
        i += 1;
    }
    if let Some(bass) = symbol.bass {
        if formula.tone_for_pitch(bass.pitch_class()).is_none() {
            notes.push(bass.to_string());
        }
    }
    notes
}

/// The intervals an analysis prints: the formula's intervals, then `bass`
/// for a slash bass that is not a chord tone.
pub fn analysis_intervals(symbol: &ChordSymbol, formula: &ChordFormula) -> (v: Vec<String>)
    requires
        formula.wf(),
    ensures
        v@.len() == formula.tones@.len() + if bass_outside_formula(*symbol, *formula) {
            1int
        } else {
            0int
        },
        forall|i: int| 0 <= i < formula.tones@.len() ==> #[trigger] v@[i]@ == interval_text(
            formula.tones@[i].interval,
        ),
        bass_outside_formula(*symbol, *formula) ==> v@[formula.tones@.len() as int]@ == "bass"@,
{
    let mut intervals: Vec<String> = Vec::new();
    let mut i: usize = 0;
    while i < formula.tones.len()
        invariant
            0 <= i <= formula.tones@.len(),
            intervals@.len() == i,
            formula.wf(),
            forall|k: int| 0 <= k < i ==> #[trigger] intervals@[k]@ == interval_text(
                formula.tones@[k].interval,
            ),
        decreases formula.tones@.len() - i,
    {
        assert(tone_wf(formula.tones@[i as int]));
        intervals.push(formula.tones[i].interval.to_string());
        i += 1;
    }
    if let Some(bass) = symbol.bass {
        if formula.tone_for_pitch(bass.pitch_class()).is_none() {
            let mut text: Vec<char> = Vec::new();
            push_str(&mut text, "bass");
            intervals.push(chars_to_string(&text));
        }
    }
    intervals
}

/// The symbols of the readings in `aliases` that are useful, in order.
pub open spec fn useful_symbols(aliases: Seq<ChordAnalysis>) -> Seq<Seq<char>>
    decreases aliases.len(),
{
    if aliases.len() == 0 {
        Seq::empty()
    } else {
        let rest = useful_symbols(aliases.drop_last());
        if aliases.last().class == AnalysisClass::UsefulAlias {
            rest.push(aliases.last().symbol@)
        } else {
            rest
        }
    }
}

/// The useful symbols of a shorter prefix begin those of a longer one.
proof fn lemma_useful_symbols_prefix(aliases: Seq<ChordAnalysis>, i: int, j: int)
    requires
        0 <= i <= j <= aliases.len(),
    ensures
        useful_symbols(aliases.take(i)).len() <= useful_symbols(aliases.take(j)).len(),
        forall|k: int|
            0 <= k < useful_symbols(aliases.take(i)).len() ==> #[trigger] useful_symbols(
                aliases.take(i),
            )[k] == useful_symbols(aliases.take(j))[k],
    decreases j - i,
{
    if i < j {
        lemma_useful_symbols_prefix(aliases, i, j - 1);
        assert(aliases.take(j).drop_last() == aliases.take(j - 1));
    }
}

/// The symbols of the first eight useful aliases, as shown beside the primary.
pub fn useful_alias_symbols(result: &IdentifyResult) -> (v: Vec<String>)
    ensures
        v@.len() == if useful_symbols(result.aliases@).len() < 8 {
            useful_symbols(result.aliases@).len()
        } else {
            8
        },
        forall|k: int| 0 <= k < v@.len() ==> #[trigger] v@[k]@ == useful_symbols(result.aliases@)[k],
{
    let ghost all = result.aliases@;
    let mut v: Vec<String> = Vec::new();
    let mut i: usize = 0;
    while i < result.aliases.len() && v.len() < 8
        invariant
            0 <= i <= all.len(),
            all == result.aliases@,
            v@.len() <= 8,
            v@.len() == useful_symbols(all.take(i as int)).len(),
            forall|k: int| 0 <= k < v@.len() ==> #[trigger] v@[k]@ == useful_symbols(all.take(i as int))[k],
        decreases all.len() - i,
    {
        assert(all.take(i + 1).drop_last() == all.take(i as int));
        if result.aliases[i].class == AnalysisClass::UsefulAlias {
            v.push(result.aliases[i].symbol.clone());
        }
        i += 1;
    }
    proof {
        lemma_useful_symbols_prefix(all, i as int, all.len() as int);
        assert(all.take(all.len() as int) == all);
        if i < all.len() {
            assert(v@.len() == 8);
        }
    }
    v
}

} // verus!
