use chordclaw::{analyze_symbol, identify};

fn primary(input: &str) -> String {
    identify(input)
        .unwrap()
        .primary
        .expect("primary analysis")
        .symbol
}


#[test]
fn lib_identifies_basic_open_chords() {
    assert_eq!(primary("022000"), "Em");
    assert_eq!(primary("x32010"), "C");
    assert_eq!(primary("320003"), "G");
    assert_eq!(primary("x02220"), "A");
    assert_eq!(primary("xx0232"), "D");
}

#[test]
fn lib_spells_flat_seventh_bass_from_chord_context() {
    let result = identify("x12010").unwrap();
    assert_eq!(result.primary.expect("primary analysis").symbol, "C7/Bb");
    let notes = result
        .notes
        .iter()
        .map(|note| note.note.to_string())
        .collect::<Vec<_>>();
    assert_eq!(notes, ["Bb", "E", "G", "C", "E"]);
}

#[test]
fn lib_prefers_common_flat_root_for_b_flat_major() {
    assert_eq!(primary("x13331"), "Bb");
}

#[test]
fn lib_distinguishes_half_diminished_from_full_diminished() {
    let half_diminished = identify("x3434x").unwrap();
    assert_eq!(
        half_diminished.primary.expect("primary analysis").symbol,
        "Cm7b5"
    );
    let notes = half_diminished
        .notes
        .iter()
        .map(|note| note.note.to_string())
        .collect::<Vec<_>>();
    assert_eq!(notes, ["C", "Gb", "Bb", "Eb"]);

    assert_eq!(primary("x3424x"), "Cdim7");
}

#[test]
fn lib_suppresses_redundant_duplicate_pitch_aliases() {
    let result = identify("021000").unwrap();
    assert_eq!(result.primary.expect("primary analysis").symbol, "Em(maj7)");
    let aliases = result
        .aliases
        .iter()
        .map(|analysis| analysis.symbol.as_str())
        .collect::<Vec<_>>();
    assert!(!aliases.contains(&"EmM7#9"));
    assert!(!aliases.contains(&"EmM9#9"));
    assert!(!aliases.contains(&"Em(maj7)#9"));
    assert!(!aliases.contains(&"Em(maj9)#9"));
}

#[test]
fn lib_rejects_explicit_redundant_duplicate_pitch_symbols() {
    let error = analyze_symbol("EmM7#9").expect_err("redundant symbol should fail");
    assert!(
        error.to_string().contains("redundant chord symbol"),
        "{error:?}"
    );
    analyze_symbol("C7#9").expect("dominant #9 is not redundant");
}

#[test]
fn lib_rejects_redundant_same_degree_alterations() {
    let error = analyze_symbol("Cdim7b5").expect_err("redundant symbol should fail");
    assert!(error.to_string().contains("alteration restates"), "{error:?}");

    let error = analyze_symbol("Caug#5").expect_err("redundant symbol should fail");
    assert!(error.to_string().contains("alteration restates"), "{error:?}");

    analyze_symbol("Cm7b5").expect("minor seven flat five is not redundant");
}

#[test]
fn lib_parses_six_nine_as_a_chord_quality_not_a_slash_bass() {
    let (symbol, formula) = analyze_symbol("C6/9").unwrap();
    assert_eq!(symbol.name(), "C6/9");
    let notes = formula
        .tones
        .iter()
        .map(|tone| tone.note.to_string())
        .collect::<Vec<_>>();
    assert_eq!(notes, ["C", "E", "G", "A", "D"]);
}

#[test]
fn lib_parses_major_seventh_as_major_not_dominant() {
    let (symbol, formula) = analyze_symbol("Cmaj7").unwrap();
    assert_eq!(symbol.name(), "Cmaj7");
    let notes = formula
        .tones
        .iter()
        .map(|tone| tone.note.to_string())
        .collect::<Vec<_>>();
    assert_eq!(notes, ["C", "E", "G", "B"]);

    let (symbol, formula) = analyze_symbol("CM9").unwrap();
    assert_eq!(symbol.name(), "Cmaj9");
    let notes = formula
        .tones
        .iter()
        .map(|tone| tone.note.to_string())
        .collect::<Vec<_>>();
    assert_eq!(notes, ["C", "E", "G", "B", "D"]);
}

#[test]
fn lib_parses_common_chart_symbol_synonyms() {
    let (symbol, _) = analyze_symbol("CΔ7").unwrap();
    assert_eq!(symbol.name(), "Cmaj7");

    let (symbol, _) = analyze_symbol("C△9").unwrap();
    assert_eq!(symbol.name(), "Cmaj9");

    let (symbol, formula) = analyze_symbol("C°7").unwrap();
    assert_eq!(symbol.name(), "Cdim7");
    let intervals = formula
        .tones
        .iter()
        .map(|tone| tone.interval.to_string())
        .collect::<Vec<_>>();
    assert_eq!(intervals, ["1", "b3", "b5", "bb7"]);

    let (symbol, _) = analyze_symbol("Cø7").unwrap();
    assert_eq!(symbol.name(), "Cm7b5");
}

#[test]
fn lib_parses_alt_as_a_concrete_altered_dominant_set() {
    let (symbol, formula) = analyze_symbol("C7alt").unwrap();
    assert_eq!(symbol.name(), "Calt");
    let intervals = formula
        .tones
        .iter()
        .map(|tone| tone.interval.to_string())
        .collect::<Vec<_>>();
    assert_eq!(intervals, ["1", "3", "b7", "b9", "#9", "b13"]);

    let error = analyze_symbol("Calt#9").expect_err("alt modifiers should fail");
    assert!(error.to_string().contains("alt is already"), "{error:?}");
}

#[test]
fn lib_rejects_descriptors_that_would_drop_tokens() {
    for symbol in ["Cmaj7alt", "Caltmaj7", "C5add9", "C5maj7"] {
        let error = analyze_symbol(symbol).expect_err("invalid descriptor should fail");
        assert!(
            error.to_string().contains("invalid chord descriptor"),
            "{symbol}: {error:?}"
        );
    }
}

#[test]
fn lib_preserves_multiple_alterations_on_the_same_degree() {
    let (symbol, formula) = analyze_symbol("C7b9#9").unwrap();
    assert_eq!(symbol.name(), "C7b9#9");
    let intervals = formula
        .tones
        .iter()
        .map(|tone| tone.interval.to_string())
        .collect::<Vec<_>>();
    assert_eq!(intervals, ["1", "3", "5", "b7", "b9", "#9"]);

    let (symbol, formula) = analyze_symbol("C13#9b9").unwrap();
    assert_eq!(symbol.name(), "C13b9#9");
    let intervals = formula
        .tones
        .iter()
        .map(|tone| tone.interval.to_string())
        .collect::<Vec<_>>();
    assert_eq!(intervals, ["1", "3", "5", "b7", "b9", "#9", "13"]);
}

#[test]
fn lib_chord_formulas_are_interval_invariant_across_roots() {
    for root in [
        "C", "Db", "D", "Eb", "E", "F", "Gb", "G", "Ab", "A", "Bb", "B",
    ] {
        for suffix in ["", "m", "7", "maj7", "m7b5", "dim7", "alt"] {
            let (_, formula) = analyze_symbol(&format!("{root}{suffix}")).unwrap();
            let intervals = formula
                .tones
                .iter()
                .map(|tone| tone.interval.to_string())
                .collect::<Vec<_>>();
            let expected = match suffix {
                "" => vec!["1", "3", "5"],
                "m" => vec!["1", "b3", "5"],
                "7" => vec!["1", "3", "5", "b7"],
                "maj7" => vec!["1", "3", "5", "7"],
                "m7b5" => vec!["1", "b3", "b5", "b7"],
                "dim7" => vec!["1", "b3", "b5", "bb7"],
                "alt" => vec!["1", "3", "b7", "b9", "#9", "b13"],
                _ => unreachable!(),
            };
            assert_eq!(intervals, expected, "{root}{suffix}");
        }
    }
}
