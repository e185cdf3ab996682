use chordclaw::{
    analyze_symbol, ChordSymbol, Fingering, GuitarTuning, Instrument, NoteLetter, NoteName, Tuning,
};


#[test]
fn canonical_symbol_names_round_trip_for_representative_corpus() {
    for input in [
        "C", "Cm", "Cmaj7", "C7sus4", "C6/9", "C(b9)", "Db(b9)", "C7b9#9", "Cø7no3", "C/G", "C/D",
        "F#dim7", "Bbmaj9", "Gsus4", "Aadd9",
    ] {
        let (symbol, formula) = analyze_symbol(input).unwrap();
        let canonical = symbol.name();
        let (round_trip, round_trip_formula) = analyze_symbol(&canonical).unwrap();
        assert_eq!(round_trip.name(), canonical, "{input}");
        assert_eq!(round_trip_formula, formula, "{input}");
    }
}

#[test]
fn maps_instruments_from_supported_string_counts() {
    assert_eq!(
        Instrument::from_string_count(4).unwrap(),
        Instrument::Ukulele
    );
    assert_eq!(
        Instrument::from_string_count(6).unwrap(),
        Instrument::Guitar
    );
    assert_eq!(
        Instrument::from_string_count(7).unwrap(),
        Instrument::Guitar7
    );
    assert_eq!(
        Instrument::from_string_count(8).unwrap(),
        Instrument::Guitar8
    );
}

#[test]
fn counts_fingering_strings_without_parsing_frets() {
    assert_eq!(Fingering::string_count_from_input("2010").unwrap(), 4);
    assert_eq!(Fingering::string_count_from_input("x-0-10-3").unwrap(), 4);
    assert_eq!(Fingering::string_count_from_input("0000000").unwrap(), 7);

    let error =
        Fingering::string_count_from_input("00000").expect_err("five-string fingering should fail");
    assert!(
        error
            .to_string()
            .contains("expected 4, 6, 7, or 8 strings, got 5"),
        "{error:?}"
    );
}

#[test]
fn rejects_unsupported_compact_tuning_count_after_octaves() {
    let error = Tuning::parse("C4C4C4C4C4C4C4C4C4")
        .expect_err("nine-string compact tuning should fail by string count");
    assert!(error.to_string().contains("got 9"), "{error:?}");
}

#[test]
fn tests_rejects_explicit_redundant_duplicate_pitch_symbols() {
    let error = analyze_symbol("EmM7#9").expect_err("redundant symbol should fail");
    assert!(
        error.to_string().contains("redundant chord symbol"),
        "{error:?}"
    );
    analyze_symbol("C7#9").expect("dominant #9 is not redundant");
}

#[test]
fn public_chord_symbol_parse_rejects_redundant_states() {
    for symbol in ["EmM7#9", "Cdim7b5", "Caug#5"] {
        let error = ChordSymbol::parse(symbol).expect_err("redundant symbol should fail");
        assert!(
            error.to_string().contains("redundant chord symbol"),
            "{symbol}: {error:?}"
        );
    }

    let symbol = ChordSymbol::parse("C7#9").expect("valid symbol should parse");
    assert_eq!(symbol.name(), "C7#9");
    let formula = symbol.formula();
    let intervals = formula
        .tones()
        .iter()
        .map(|tone| tone.interval.to_string())
        .collect::<Vec<_>>();
    assert_eq!(intervals, ["1", "3", "5", "b7", "#9"]);
}

#[test]
fn tests_rejects_redundant_same_degree_alterations() {
    let error = analyze_symbol("Cdim7b5").expect_err("redundant symbol should fail");
    assert!(error.to_string().contains("alteration restates"), "{error:?}");

    let error = analyze_symbol("Caug#5").expect_err("redundant symbol should fail");
    assert!(error.to_string().contains("alteration restates"), "{error:?}");

    analyze_symbol("Cm7b5").expect("minor seven flat five is not redundant");
}

#[test]
fn tests_parses_six_nine_as_a_chord_quality_not_a_slash_bass() {
    let (symbol, formula) = analyze_symbol("C6/9").unwrap();
    assert_eq!(symbol.name(), "C6/9");
    let notes = formula
        .tones
        .iter()
        .map(|tone| tone.note.to_string())
        .collect::<Vec<_>>();
    assert_eq!(notes, ["C", "E", "G", "A", "D"]);

    let (symbol, _) = analyze_symbol("C(add9)").unwrap();
    assert_eq!(symbol.name(), "Cadd9");

    let (symbol, _) = analyze_symbol("C(6/9)").unwrap();
    assert_eq!(symbol.name(), "C6/9");

    let (symbol, _) = analyze_symbol("C6/9/E").unwrap();
    assert_eq!(symbol.name(), "C6/9/E");
}

#[test]
fn rejects_malformed_slash_syntax() {
    for symbol in ["C//D", "C/9", "C7//E", "C/"] {
        let error = analyze_symbol(symbol).expect_err("malformed slash should fail");
        assert!(
            error.to_string().contains("slash chord"),
            "{symbol}: {error:?}"
        );
    }
}

#[test]
fn rejects_enharmonic_chord_tone_slash_bass_spellings() {
    for (symbol, expected) in [("C/Fb", "E"), ("C/B#", "C")] {
        let error = analyze_symbol(symbol).expect_err("enharmonic slash bass should fail");
        assert!(
            error.to_string().contains("slash chord bass") && error.to_string().contains(expected),
            "{symbol}: {error:?}"
        );
    }

    assert_eq!(analyze_symbol("C/E").unwrap().0.name(), "C/E");
    assert_eq!(analyze_symbol("C/D").unwrap().0.name(), "C/D");
}

#[test]
fn rejects_redundant_root_slash_root_symbols() {
    for (symbol, expected) in [("C/C", "C"), ("Cm/C", "Cm"), ("F#maj7/F#", "F#maj7")] {
        let error = analyze_symbol(symbol).expect_err("root slash root should fail");
        assert!(
            error.to_string().contains("bass repeats root") && error.to_string().contains(expected),
            "{symbol}: {error:?}"
        );
    }
}

#[test]
fn rejects_duplicate_or_conflicting_descriptor_state() {
    for symbol in ["C79", "C97", "Cmaj7maj9", "C(add9", "C66", "Cadd9add9"] {
        let error = analyze_symbol(symbol).expect_err("malformed descriptor should fail");
        assert!(
            error.to_string().contains("chord descriptor"),
            "{symbol}: {error:?}"
        );
    }

    for symbol in ["C(ma)j7", "C(ad)d9", "C m a j 7"] {
        let error = analyze_symbol(symbol).expect_err("malformed descriptor should fail");
        assert!(
            error.to_string().contains("chord descriptor"),
            "{symbol}: {error:?}"
        );
    }
}

#[test]
fn rejects_symbols_that_lie_about_altered_extension_degrees() {
    for symbol in ["C9b9", "C11#11", "C13b13", "Cadd9b9"] {
        let error = analyze_symbol(symbol).expect_err("altered extension should fail");
        assert!(
            error.to_string().contains("chord descriptor"),
            "{symbol}: {error:?}"
        );
    }

    analyze_symbol("C13b9#9").expect("lower altered extensions remain valid");
}

#[test]
fn tests_parses_major_seventh_as_major_not_dominant() {
    let (symbol, formula) = analyze_symbol("Cmaj7").unwrap();
    assert_eq!(symbol.name(), "Cmaj7");
    let notes = formula
        .tones
        .iter()
        .map(|tone| tone.note.to_string())
        .collect::<Vec<_>>();
    assert_eq!(notes, ["C", "E", "G", "B"]);

    let (symbol, formula) = analyze_symbol("CM9").unwrap();
    assert_eq!(symbol.name(), "Cmaj9");
    let notes = formula
        .tones
        .iter()
        .map(|tone| tone.note.to_string())
        .collect::<Vec<_>>();
    assert_eq!(notes, ["C", "E", "G", "B", "D"]);

    let (symbol, formula) = analyze_symbol("CMAJ7").unwrap();
    assert_eq!(symbol.name(), "Cmaj7");
    let notes = formula
        .tones
        .iter()
        .map(|tone| tone.note.to_string())
        .collect::<Vec<_>>();
    assert_eq!(notes, ["C", "E", "G", "B"]);
}

#[test]
fn parses_lowercase_bare_major_descriptor() {
    for (input, expected) in [
        ("Cmaj", "C"),
        ("Cmaj6", "C6"),
        ("Cmajadd9", "Cadd9"),
        ("Cmajno5", "Cno5"),
    ] {
        let (symbol, _) = analyze_symbol(input).unwrap();
        assert_eq!(symbol.name(), expected, "{input}");
    }
}

#[test]
fn tests_parses_common_chart_symbol_synonyms() {
    let (symbol, _) = analyze_symbol("CΔ7").unwrap();
    assert_eq!(symbol.name(), "Cmaj7");

    let (symbol, _) = analyze_symbol("C△9").unwrap();
    assert_eq!(symbol.name(), "Cmaj9");

    let (symbol, formula) = analyze_symbol("C°7").unwrap();
    assert_eq!(symbol.name(), "Cdim7");
    let intervals = formula
        .tones
        .iter()
        .map(|tone| tone.interval.to_string())
        .collect::<Vec<_>>();
    assert_eq!(intervals, ["1", "b3", "b5", "bb7"]);

    let (symbol, _) = analyze_symbol("Cø7").unwrap();
    assert_eq!(symbol.name(), "Cm7b5");

    for input in ["Cmin7", "CMin7", "CMIN7"] {
        let (symbol, _) = analyze_symbol(input).unwrap();
        assert_eq!(symbol.name(), "Cm7", "{input}");
    }
}

#[test]
fn parses_common_unicode_chart_glyphs() {
    for (input, canonical) in [
        ("C♭maj7", "Cbmaj7"),
        ("F♯m7", "F#m7"),
        ("C𝄫maj7", "Cbbmaj7"),
        ("F𝄪m7", "F##m7"),
        ("C7♭9", "C7b9"),
        ("C−7", "Cm7"),
        ("C–7", "Cm7"),
    ] {
        let (symbol, _) = analyze_symbol(input).unwrap();
        assert_eq!(symbol.name(), canonical, "{input}");
    }
}

#[test]
fn rejects_alterations_outside_identification_grammar() {
    for symbol in ["Csus4b11", "C7##13", "C7b13#13", "C7bb5"] {
        let error = analyze_symbol(symbol).expect_err("unsupported alteration should fail");
        assert!(
            error.to_string().contains("unsupported alteration")
                || error.to_string().contains("chord descriptor"),
            "{symbol}: {error:?}"
        );
    }
}

#[test]
fn parses_unicode_note_and_tuning_glyphs() {
    assert_eq!(NoteName::parse("F♯").unwrap().to_string(), "F#");
    assert_eq!(NoteName::parse("C♭").unwrap().to_string(), "Cb");
    assert_eq!(NoteName::parse("F𝄪").unwrap().to_string(), "F##");
    assert_eq!(NoteName::parse("C𝄫").unwrap().to_string(), "Cbb");

    let tuning = GuitarTuning::parse("F♯,B,E,A,C♯,F♯").unwrap();
    let notes = tuning
        .notes()
        .iter()
        .map(|note| note.to_string())
        .collect::<Vec<_>>();
    assert_eq!(notes, ["F#", "B", "E", "A", "C#", "F#"]);
}

#[test]
fn parses_half_diminished_extension_shorthand() {
    for (input, canonical, intervals) in [
        ("Cø9", "Cm9b5", vec!["1", "b3", "b5", "b7", "9"]),
        ("Cø11", "Cm11b5", vec!["1", "b3", "b5", "b7", "9", "11"]),
    ] {
        let (symbol, formula) = analyze_symbol(input).unwrap();
        assert_eq!(symbol.name(), canonical, "{input}");
        let actual = formula
            .tones()
            .iter()
            .map(|tone| tone.interval.to_string())
            .collect::<Vec<_>>();
        assert_eq!(actual, intervals, "{input}");
    }

    let error = analyze_symbol("Cø79").expect_err("ø7 plus extension should be rejected");
    assert!(error.to_string().contains("conflicting"), "{error:?}");
}

#[test]
fn parses_accidentals_without_overflow_or_mixed_spelling() {
    let excessive = format!("C{}", "#".repeat(128));
    let error = analyze_symbol(&excessive).expect_err("excessive accidentals should fail");
    assert!(
        error.to_string().contains("too many accidentals"),
        "{error:?}"
    );

    let error = analyze_symbol("C#b").expect_err("mixed spelling should fail");
    assert!(error.to_string().contains("chord descriptor"), "{error:?}");

    let error = analyze_symbol("Cb#").expect_err("mixed spelling should fail");
    assert!(error.to_string().contains("chord descriptor"), "{error:?}");

    let (symbol, formula) = analyze_symbol("C#b5").unwrap();
    assert_eq!(symbol.name(), "C#(b5)");
    let intervals = formula
        .tones
        .iter()
        .map(|tone| tone.interval.to_string())
        .collect::<Vec<_>>();
    assert_eq!(intervals, ["1", "3", "b5"]);
}

#[test]
fn canonical_leading_alterations_round_trip_without_root_collision() {
    for (input, canonical, notes) in [
        ("C(b9)", "C(b9)", vec!["C", "E", "G", "Db"]),
        ("C(b5)", "C(b5)", vec!["C", "E", "Gb"]),
        ("C(#5)", "C(#5)", vec!["C", "E", "G#"]),
        ("Db(b9)", "Db(b9)", vec!["Db", "F", "Ab", "Ebb"]),
    ] {
        let (symbol, formula) = analyze_symbol(input).unwrap();
        assert_eq!(symbol.name(), canonical);
        assert_eq!(
            formula
                .tones()
                .iter()
                .map(|tone| tone.note.to_string())
                .collect::<Vec<_>>(),
            notes,
            "{input}"
        );

        let (round_trip, round_trip_formula) = analyze_symbol(&symbol.name()).unwrap();
        assert_eq!(round_trip.name(), canonical);
        assert_eq!(round_trip_formula, formula);
    }

    let (flat_root, flat_root_formula) = analyze_symbol("Cb9").unwrap();
    assert_eq!(flat_root.name(), "Cb9");
    assert_eq!(
        flat_root_formula
            .tones()
            .iter()
            .map(|tone| tone.note.to_string())
            .collect::<Vec<_>>(),
        ["Cb", "Eb", "Gb", "Bbb", "Db"]
    );
}

#[test]
fn note_name_api_rejects_invalid_accidental_states() {
    let error = NoteName::new(NoteLetter::B, 3).expect_err("triple sharp should fail");
    assert!(
        error.to_string().contains("too many accidentals"),
        "{error:?}"
    );

    let note = NoteName::new(NoteLetter::B, 2).unwrap();
    assert_eq!(note.to_string(), "B##");
    assert_eq!(note.letter(), NoteLetter::B);
    assert_eq!(note.accidental(), 2);

    let error = analyze_symbol("B##maj7").expect_err("triple spellings should fail");
    assert!(error.to_string().contains("formula spelling"), "{error:?}");
}

#[test]
fn parses_suspended_chords_after_sevenths_and_extensions() {
    let (symbol, formula) = analyze_symbol("C7sus4").unwrap();
    assert_eq!(symbol.name(), "C7sus4");
    let intervals = formula
        .tones
        .iter()
        .map(|tone| tone.interval.to_string())
        .collect::<Vec<_>>();
    assert_eq!(intervals, ["1", "4", "5", "b7"]);

    let (symbol, formula) = analyze_symbol("C9sus4").unwrap();
    assert_eq!(symbol.name(), "C9sus4");
    let intervals = formula
        .tones
        .iter()
        .map(|tone| tone.interval.to_string())
        .collect::<Vec<_>>();
    assert_eq!(intervals, ["1", "4", "5", "b7", "9"]);
}

#[test]
fn rejects_conflicting_quality_rewrites() {
    for symbol in ["Cdimø7", "Cm7sus4", "C5sus4", "Cdim7sus4"] {
        let error = analyze_symbol(symbol).expect_err("conflicting quality should fail");
        assert!(
            error.to_string().contains("duplicate or conflicting"),
            "{symbol}: {error:?}"
        );
    }
}

#[test]
fn half_diminished_canonicalization_preserves_omissions() {
    let (symbol, formula) = analyze_symbol("Cø7no3").unwrap();
    assert_eq!(symbol.name(), "Cm7b5no3");
    let intervals = formula
        .tones
        .iter()
        .map(|tone| tone.interval.to_string())
        .collect::<Vec<_>>();
    assert_eq!(intervals, ["1", "b5", "b7"]);
}

#[test]
fn rejects_noop_or_empty_explicit_omissions() {
    for symbol in ["Cno1no3no5", "Csus4no3", "Cno1no3"] {
        let error = analyze_symbol(symbol).expect_err("invalid omission should fail");
        assert!(
            error.to_string().contains("omit") || error.to_string().contains("harmonic content"),
            "{symbol}: {error:?}"
        );
    }
}

#[test]
fn tests_parses_alt_as_a_concrete_altered_dominant_set() {
    let (symbol, _) = analyze_symbol("Calt").unwrap();
    assert_eq!(symbol.name(), "Calt");

    let (symbol, formula) = analyze_symbol("C7alt").unwrap();
    assert_eq!(symbol.name(), "Calt");
    let intervals = formula
        .tones
        .iter()
        .map(|tone| tone.interval.to_string())
        .collect::<Vec<_>>();
    assert_eq!(intervals, ["1", "3", "b7", "b9", "#9", "b13"]);

    let error = analyze_symbol("Calt#9").expect_err("alt modifiers should fail");
    assert!(error.to_string().contains("alt is already"), "{error:?}");
}

#[test]
fn rejects_alt_after_conflicting_quality() {
    for symbol in ["Cmalt", "Cdimalt", "Caugalt", "Csus4alt", "Cmaj7alt"] {
        let error = analyze_symbol(symbol).expect_err("conflicting alt should fail");
        assert!(
            error.to_string().contains("alt is already"),
            "{symbol}: {error:?}"
        );
    }
}

#[test]
fn tests_rejects_descriptors_that_would_drop_tokens() {
    for symbol in ["Cmaj7alt", "Caltmaj7", "C5add9", "C5maj7"] {
        let error = analyze_symbol(symbol).expect_err("invalid descriptor should fail");
        assert!(
            error.to_string().contains("invalid chord descriptor"),
            "{symbol}: {error:?}"
        );
    }
}

#[test]
fn tests_preserves_multiple_alterations_on_the_same_degree() {
    let (symbol, formula) = analyze_symbol("C7b9#9").unwrap();
    assert_eq!(symbol.name(), "C7b9#9");
    let intervals = formula
        .tones
        .iter()
        .map(|tone| tone.interval.to_string())
        .collect::<Vec<_>>();
    assert_eq!(intervals, ["1", "3", "5", "b7", "b9", "#9"]);

    let (symbol, formula) = analyze_symbol("C13#9b9").unwrap();
    assert_eq!(symbol.name(), "C13b9#9");
    let intervals = formula
        .tones
        .iter()
        .map(|tone| tone.interval.to_string())
        .collect::<Vec<_>>();
    assert_eq!(intervals, ["1", "3", "5", "b7", "b9", "#9", "13"]);
}

#[test]
fn tests_chord_formulas_are_interval_invariant_across_roots() {
    for root in [
        "C", "Db", "D", "Eb", "E", "F", "Gb", "G", "Ab", "A", "Bb", "B",
    ] {
        for suffix in ["", "m", "7", "maj7", "m7b5", "dim7", "alt"] {
            let (_, formula) = analyze_symbol(&format!("{root}{suffix}")).unwrap();
            let intervals = formula
                .tones
                .iter()
                .map(|tone| tone.interval.to_string())
                .collect::<Vec<_>>();
            let expected = match suffix {
                "" => vec!["1", "3", "5"],
                "m" => vec!["1", "b3", "5"],
                "7" => vec!["1", "3", "5", "b7"],
                "maj7" => vec!["1", "3", "5", "7"],
                "m7b5" => vec!["1", "b3", "b5", "b7"],
                "dim7" => vec!["1", "b3", "b5", "bb7"],
                "alt" => vec!["1", "3", "b7", "b9", "#9", "b13"],
                _ => unreachable!(),
            };
            assert_eq!(intervals, expected, "{root}{suffix}");
        }
    }
}
