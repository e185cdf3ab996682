use chordclaw::request::{
    analysis_intervals, analysis_notes, option_u8, resolve_tuning, useful_alias_symbols,
};
use chordclaw::scoring::rank_voicing_candidates;
use chordclaw::{
    analyze_symbol, estimated_finger_count, identify, rank_diverse_voicing_candidates,
    standard_tuning, standard_ukulele_tuning, voicing_score_breakdown_with_tuning, voicings,
    AnalysisClass, ChordAnalysis, ChordClawErrorKind, Confidence, Fingering, Instrument, NoteLetter, NoteName, Tuning, Voicing,
    VoicingCandidate, VoicingMode, VoicingOptions, MAX_STRING_COUNT,
};

fn contract_candidates(list: &[Voicing]) -> Vec<VoicingCandidate> {
    list.iter()
        .map(|voicing| {
            let mut frets = [None; MAX_STRING_COUNT];
            for (idx, fret) in voicing.frets.iter().copied().enumerate() {
                frets[idx] = fret;
            }
            VoicingCandidate {
                frets,
                string_count: voicing.frets.len(),
                omissions: Vec::new(),
                score: voicing.score,
            }
        })
        .collect()
}

fn sounding_pitch_classes(voicing: &Voicing) -> Vec<i16> {
    let tuning = standard_tuning();
    voicing
        .frets
        .iter()
        .enumerate()
        .filter_map(|(string, fret)| fret.map(|f| tuning.absolute_pitch(string, f) % 12))
        .collect()
}

#[test]
fn compact_and_dashed_fingerings_read_the_same_frets() {
    let compact = Fingering::parse("x32010").unwrap();
    let dashed = Fingering::parse("x-3-2-0-1-0").unwrap();
    assert_eq!(compact.frets(), dashed.frets());
    assert_eq!(
        compact.frets(),
        vec![None, Some(3), Some(2), Some(0), Some(1), Some(0)]
    );
}

#[test]
fn dashed_fingering_pieces_are_trimmed_and_may_carry_a_plus() {
    let fingering = Fingering::parse(" X - +3 - 2 - 0 - 1 - 0 ").unwrap();
    assert_eq!(
        fingering.frets(),
        vec![None, Some(3), Some(2), Some(0), Some(1), Some(0)]
    );
}

#[test]
fn dashed_fingering_rejects_frets_above_the_standard_range() {
    let err = Fingering::parse("31-x-x-x-x-x").unwrap_err();
    assert_eq!(
        err.message(),
        "invalid fret '31': standard guitar range is 0..=30"
    );
    let err = Fingering::parse("3-x-x-x-x").unwrap_err();
    assert_eq!(err.message(), "expected 6 strings, got 5");
    let err = Fingering::parse("x3201a").unwrap_err();
    assert_eq!(err.message(), "invalid fret 'a'");
}

#[test]
fn fingering_width_counts_dash_pieces_or_characters() {
    assert_eq!(Fingering::string_count_from_input("10-x-11-9-8-x").unwrap(), 6);
    assert_eq!(Fingering::string_count_from_input(" 2010 ").unwrap(), 4);
    assert_eq!(Fingering::string_count_from_input("0000000").unwrap(), 7);
    assert!(Fingering::string_count_from_input("x-x-x").is_err());
    assert!(Fingering::string_count_from_input("00000").is_err());
}

#[test]
fn instrument_names_parse_ignoring_case_and_spaces() {
    assert_eq!(Instrument::parse("  UKE ").unwrap(), Instrument::Ukulele);
    assert_eq!(Instrument::parse("Seven-String").unwrap(), Instrument::Guitar7);
    assert_eq!(Instrument::parse("8").unwrap(), Instrument::Guitar8);
    assert_eq!(Instrument::parse("g").unwrap(), Instrument::Guitar);
    let err = Instrument::parse("banjo").unwrap_err();
    assert_eq!(
        err.message(),
        "unsupported instrument 'banjo': expected guitar, guitar7, guitar8, or ukulele"
    );
    assert_eq!(Instrument::Guitar7.name(), "guitar7");
    assert_eq!(Instrument::Ukulele.name(), "ukulele");
}

#[test]
fn tuning_text_lists_the_open_notes() {
    assert_eq!(standard_tuning().to_string(), "E A D G B E");
    assert_eq!(standard_ukulele_tuning().to_string(), "G C E A");
}

#[test]
fn resolved_tuning_follows_instrument_tuning_or_fingering_width() {
    let uke = resolve_tuning(None, None, Some("0003")).unwrap();
    assert_eq!(uke.instrument(), Instrument::Ukulele);
    assert_eq!(uke.string_count(), 4);
    let guitar = resolve_tuning(None, None, None).unwrap();
    assert_eq!(guitar.instrument(), Instrument::Guitar);
    assert_eq!(guitar.string_count(), 6);
    let seven = resolve_tuning(Some("guitar7"), None, Some("0000")).unwrap();
    assert_eq!(seven.string_count(), 7);
    assert!(resolve_tuning(Some("banjo"), None, None).is_err());
    assert!(resolve_tuning(None, None, Some("000")).is_err());
    let dadgad = resolve_tuning(None, Some("DADGAD"), None).unwrap();
    assert_eq!(dadgad.to_string(), "D A D G A D");
}

#[test]
fn note_names_stop_at_a_change_of_accidental_kind() {
    assert!(NoteName::parse("C#b").is_err());
    let double_flat = NoteName::parse("Bbb").unwrap();
    assert_eq!(double_flat.letter, NoteLetter::B);
    assert_eq!(double_flat.accidental, -2);
    assert!(NoteName::parse("F###").is_err());
    assert_eq!(NoteName::parse("e").unwrap().letter, NoteLetter::E);
    assert!(NoteName::parse("").is_err());
    assert!(NoteName::parse("H").is_err());
}

#[test]
fn every_generated_voicing_sounds_only_chord_tones() {
    let list = voicings("Em", VoicingOptions::default()).unwrap();
    assert!(!list.is_empty());
    for voicing in &list {
        for pitch in sounding_pitch_classes(voicing) {
            assert!([4, 7, 11].contains(&pitch), "{:?}", voicing.frets);
        }
    }
}

#[test]
fn slash_bass_is_the_lowest_sounding_pitch() {
    let tuning = standard_tuning();
    let list = voicings("C/G", VoicingOptions::default()).unwrap();
    assert!(!list.is_empty());
    for voicing in &list {
        let lowest = voicing
            .frets
            .iter()
            .enumerate()
            .filter_map(|(string, fret)| fret.map(|f| tuning.absolute_pitch(string, f)))
            .min()
            .unwrap();
        assert_eq!(lowest % 12, 7, "{:?}", voicing.frets);
    }
}

#[test]
fn min_fret_above_the_nut_excludes_open_strings() {
    let options = VoicingOptions {
        min_fret: 5,
        max_fret: 12,
        max_span: 4,
        mode: VoicingMode::Curated { limit: 20 },
    };
    let list = voicings("C", options).unwrap();
    assert!(!list.is_empty());
    for voicing in &list {
        assert!(!voicing.frets.contains(&Some(0)), "{:?}", voicing.frets);
    }
}

#[test]
fn voicings_come_best_score_first() {
    let all = VoicingOptions {
        mode: VoicingMode::All,
        ..VoicingOptions::default()
    };
    for options in [VoicingOptions::default(), all] {
        let list = voicings("G", options).unwrap();
        assert!(list.len() > 1);
        for pair in list.windows(2) {
            assert!(pair[0].score <= pair[1].score);
        }
    }
}

#[test]
fn all_mode_ranking_keeps_every_candidate() {
    let all = VoicingOptions {
        mode: VoicingMode::All,
        ..VoicingOptions::default()
    };
    let list = voicings("Am", all).unwrap();
    let mut candidates = contract_candidates(&list);
    candidates.reverse();
    let ranked = rank_voicing_candidates(candidates, all);
    assert_eq!(ranked.len(), list.len());
    let mut before: Vec<Vec<Option<u8>>> = list.iter().map(|v| v.frets.clone()).collect();
    let mut after: Vec<Vec<Option<u8>>> = ranked
        .iter()
        .map(|c| c.frets[..c.string_count].to_vec())
        .collect();
    for pair in ranked.windows(2) {
        assert!(pair[0].score <= pair[1].score);
    }
    before.sort();
    after.sort();
    assert_eq!(before, after);
}

#[test]
fn diverse_ranking_fills_its_limit_when_it_can() {
    let all = VoicingOptions {
        mode: VoicingMode::All,
        ..VoicingOptions::default()
    };
    let list = voicings("D", all).unwrap();
    assert!(list.len() > 5);
    let picked = rank_diverse_voicing_candidates(contract_candidates(&list), 5);
    assert_eq!(picked.len(), 5);
    for pair in picked.windows(2) {
        assert!(pair[0].score <= pair[1].score);
    }
    assert!(rank_diverse_voicing_candidates(contract_candidates(&list), 0).is_empty());
    let everything = rank_diverse_voicing_candidates(contract_candidates(&list), list.len() + 10);
    assert_eq!(everything.len(), list.len());
}

#[test]
fn score_totals_keep_the_costs_counted_after_bonuses() {
    let breakdown = voicing_score_breakdown_with_tuning(
        "C",
        standard_tuning(),
        &[None, Some(3), Some(2), Some(0), Some(1), Some(0)],
    )
    .unwrap();
    let post = breakdown.harmonic_defect_cost
        + breakdown.internal_mute_quality_cost
        + breakdown.trailing_mute_cost
        + breakdown.sparse_duplicate_pitch_cost
        + breakdown.open_chord_tone_bypass_cost
        + breakdown.low_added_ninth_cluster_cost
        + breakdown.fingering_complexity_cost
        + breakdown.instrument_cost;
    assert!(breakdown.total + breakdown.instrument_bonus >= post);
}

#[test]
fn score_breakdown_rejects_tones_that_cannot_be_omitted() {
    let err = voicing_score_breakdown_with_tuning(
        "C",
        standard_tuning(),
        &[None, Some(3), None, None, None, None],
    )
    .unwrap_err();
    assert_eq!(
        err.message(),
        "voicing leaves out chord tones that cannot be omitted"
    );
    let err = voicing_score_breakdown_with_tuning("C", standard_tuning(), &[Some(0); 5])
        .unwrap_err();
    assert_eq!(err.message(), "voicing has 5 strings but tuning has 6");
}

#[test]
fn analysis_lists_a_foreign_slash_bass_last() {
    let (symbol, formula) = analyze_symbol("C/Bb").unwrap();
    assert_eq!(analysis_notes(&symbol, &formula), vec!["C", "E", "G", "Bb"]);
    assert_eq!(
        analysis_intervals(&symbol, &formula),
        vec!["1", "3", "5", "bass"]
    );
    let (symbol, formula) = analyze_symbol("C/E").unwrap();
    assert_eq!(analysis_notes(&symbol, &formula), vec!["C", "E", "G"]);
}

#[test]
fn useful_alias_symbols_are_useful_and_at_most_eight() {
    let result = identify("x32010").unwrap();
    let shown = useful_alias_symbols(&result);
    assert!(shown.len() <= 8);
    let useful: Vec<String> = result
        .aliases
        .iter()
        .filter(|a| a.class == AnalysisClass::UsefulAlias)
        .map(|a| a.symbol.clone())
        .take(8)
        .collect();
    assert_eq!(shown, useful);
}

#[test]
fn identified_notes_follow_string_order() {
    let result = identify("x32010").unwrap();
    let strings: Vec<usize> = result.notes.iter().map(|n| n.string).collect();
    let frets: Vec<u8> = result.notes.iter().map(|n| n.fret).collect();
    let pitches: Vec<u8> = result.notes.iter().map(|n| n.pitch_class).collect();
    assert_eq!(strings, vec![1, 2, 3, 4, 5]);
    assert_eq!(frets, vec![3, 2, 0, 1, 0]);
    assert_eq!(pitches, vec![0, 4, 7, 0, 4]);
    assert!(identify("x3201").is_err());
}

#[test]
fn readings_name_each_symbol_once() {
    let result = identify("x32010").unwrap();
    let mut symbols: Vec<String> = result.aliases.iter().map(|a| a.symbol.clone()).collect();
    symbols.push(result.primary.unwrap().symbol);
    let count = symbols.len();
    symbols.sort();
    symbols.dedup();
    assert_eq!(symbols.len(), count);
}

#[test]
fn finger_estimates_count_single_and_open_strings() {
    let mut frets = [None; MAX_STRING_COUNT];
    assert_eq!(estimated_finger_count(&frets, 6), 0);
    frets[0] = Some(0);
    frets[1] = Some(0);
    assert_eq!(estimated_finger_count(&frets, 6), 0);
    frets[2] = Some(3);
    assert_eq!(estimated_finger_count(&frets, 6), 1);
}

#[test]
fn numeric_options_read_decimal_text() {
    assert_eq!(option_u8("max-fret", None, 12).unwrap(), 12);
    assert_eq!(option_u8("max-fret", Some("+7"), 12).unwrap(), 7);
    let err = option_u8("max-fret", Some("31x"), 12).unwrap_err();
    assert_eq!(err.kind(), ChordClawErrorKind::Data);
    assert!(option_u8("max-fret", Some("256"), 12).is_err());
}

#[test]
fn error_kinds_map_to_exit_codes() {
    assert_eq!(ChordClawErrorKind::Data.exit_code(), 65);
    assert_eq!(ChordClawErrorKind::Usage.exit_code(), 2);
    assert_eq!(ChordClawErrorKind::Internal.exit_code(), 1);
}

#[test]
fn tuning_octaves_are_given_for_every_note_or_none() {
    let err = Tuning::parse("G3,C4,E4,A").unwrap_err();
    assert_eq!(
        err.message(),
        "invalid tuning: provide octaves for every note or for none"
    );
    let separated = Tuning::parse("E2,A2,D3,G3,B3,E4").unwrap();
    let compact = Tuning::parse("E2A2D3G3B3E4").unwrap();
    for tuning in [separated, compact] {
        assert_eq!(tuning.string_count(), 6);
        assert_eq!(tuning.absolute_pitch(0, 0), 28);
        assert_eq!(tuning.absolute_pitch(5, 0), 52);
    }
    assert!(Tuning::parse("E200,A2,D3,G3,B3,E4").is_err());
}

#[test]
fn tuning_separators_may_be_mixed() {
    let tuning = Tuning::parse(" D A;D/G-A,D ").unwrap();
    assert_eq!(tuning.to_string(), "D A D G A D");
    assert_eq!(Tuning::parse("  Standard ").unwrap().to_string(), "E A D G B E");
    assert!(Tuning::parse("D,A,D").is_err());
    assert!(Tuning::parse("DADGAH").is_err());
}

#[test]
fn ukulele_patterns_are_reentrant_except_baritone() {
    let transposed = Tuning::parse("ADF#B").unwrap();
    assert_eq!(transposed.instrument(), Instrument::Ukulele);
    assert!(transposed.absolute_pitch(0, 0) > transposed.absolute_pitch(1, 0));
    assert!(!transposed.prefers_root_bass());
    let baritone = Tuning::parse("DGBE").unwrap();
    assert!(baritone.prefers_root_bass());
    for string in 1..4 {
        assert!(baritone.absolute_pitch(string - 1, 0) < baritone.absolute_pitch(string, 0));
    }
    let standard = standard_ukulele_tuning();
    assert!(standard.absolute_pitch(1, 0) < standard.absolute_pitch(2, 0));
    assert!(standard.absolute_pitch(2, 0) < standard.absolute_pitch(0, 0));
    assert!(standard.absolute_pitch(0, 0) < standard.absolute_pitch(3, 0));
}

fn analysis_pitch(name: &str) -> u8 {
    NoteName::parse(name).unwrap().pitch_class().value()
}

fn check_reading_covers_played(analysis: &ChordAnalysis, played: &[u8]) {
    let mut chord: Vec<u8> = analysis.notes.iter().map(|n| analysis_pitch(n)).collect();
    chord.sort();
    chord.dedup();
    let bass = analysis_pitch(&analysis.bass);
    assert!(played.contains(&bass), "{} bass", analysis.symbol);
    let mut with_bass = chord.clone();
    with_bass.push(bass);
    with_bass.sort();
    with_bass.dedup();
    match analysis.confidence {
        Confidence::Exact => assert_eq!(with_bass, played.to_vec(), "{}", analysis.symbol),
        Confidence::Omitted => {
            assert!(played.iter().all(|p| with_bass.contains(p)), "{}", analysis.symbol);
            assert!(chord.iter().any(|p| !played.contains(p)), "{}", analysis.symbol);
        }
    }
}

#[test]
fn identified_readings_cover_played_pitches() {
    for input in ["x32010", "x35453", "3x343x", "xx0232", "x32310", "x02220", "320003", "x21202"] {
        let result = identify(input).unwrap();
        let mut played: Vec<u8> = result.notes.iter().map(|n| n.pitch_class).collect();
        played.sort();
        played.dedup();
        let primary = result.primary.as_ref().unwrap();
        check_reading_covers_played(primary, &played);
        for alias in &result.aliases {
            check_reading_covers_played(alias, &played);
        }
    }
}

#[test]
fn curated_picks_stay_near_the_candidates_passed_over() {
    let all = VoicingOptions {
        mode: VoicingMode::All,
        ..VoicingOptions::default()
    };
    for symbol in ["C", "Em", "G7", "Cmaj9", "D"] {
        let list = voicings(symbol, all.clone()).unwrap();
        let candidates = contract_candidates(&list);
        for limit in [3usize, 8, 20] {
            let picked = rank_diverse_voicing_candidates(contract_candidates(&list), limit);
            for candidate in &candidates {
                let kept = picked.iter().any(|p| p.frets == candidate.frets);
                if !kept {
                    for p in &picked {
                        assert!(p.score <= candidate.score + 12, "{symbol} {limit}");
                    }
                }
            }
        }
    }
}

#[test]
fn diverse_ranking_picks_each_candidate_once_best_first() {
    let all = VoicingOptions {
        mode: VoicingMode::All,
        ..VoicingOptions::default()
    };
    let list = voicings("G", all).unwrap();
    let candidates = contract_candidates(&list);
    let picked = rank_diverse_voicing_candidates(contract_candidates(&list), 8);
    let best = candidates.iter().map(|c| c.score).min().unwrap();
    assert_eq!(picked[0].score, best);
    let mut used = vec![false; candidates.len()];
    for p in &picked {
        let at = candidates
            .iter()
            .enumerate()
            .position(|(i, c)| !used[i] && c.frets == p.frets && c.score == p.score)
            .expect("picked from the input");
        used[at] = true;
    }
}
