use chordclaw::{
    identify, identify_with_tuning, standard_tuning, AnalysisClass, Instrument, Tuning,
};

fn primary(input: &str) -> String {
    identify(input)
        .unwrap()
        .primary
        .expect("primary analysis")
        .symbol
}


#[test]
fn tests_identifies_basic_open_chords() {
    assert_eq!(primary("022000"), "Em");
    assert_eq!(primary("x32010"), "C");
    assert_eq!(primary("320003"), "G");
    assert_eq!(primary("x02220"), "A");
    assert_eq!(primary("xx0232"), "D");
}

#[test]
fn rejects_fingering_count_mismatches_for_fixed_tuning() {
    let error = identify_with_tuning("0000000", standard_tuning())
        .expect_err("seven-string fingering should fail for six-string tuning");
    assert!(
        error.to_string().contains("expected 6 strings, got 7"),
        "{error:?}"
    );
}

#[test]
fn supports_standard_ukulele_tuning_and_reentrant_bass() {
    let uke = Instrument::Ukulele.default_tuning();
    let notes = uke
        .notes()
        .iter()
        .map(|note| note.to_string())
        .collect::<Vec<_>>();
    assert_eq!(notes, ["G", "C", "E", "A"]);

    let c = identify_with_tuning("0003", uke).unwrap();
    assert_eq!(c.primary.expect("C primary").symbol, "C");

    let f = identify_with_tuning("2010", uke).unwrap();
    assert_eq!(f.primary.expect("F primary").symbol, "F");

    let open = identify_with_tuning("0000", uke).unwrap();
    assert_eq!(open.primary.expect("open uke primary").symbol, "C6");
}

#[test]
fn supports_explicit_ukulele_tuning_octaves() {
    let high_g = Tuning::parse_for_instrument("G4,C4,E4,A4", Instrument::Ukulele).unwrap();
    assert_eq!(
        identify_with_tuning("0000", high_g)
            .unwrap()
            .primary
            .expect("high-G primary")
            .symbol,
        "C6"
    );

    let low_g = Tuning::parse_for_instrument("G3,C4,E4,A4", Instrument::Ukulele).unwrap();
    assert_eq!(
        identify_with_tuning("0000", low_g)
            .unwrap()
            .primary
            .expect("low-G primary")
            .symbol,
        "C6/G"
    );

    let transposed_high_g =
        Tuning::parse_for_instrument("Ab,Db,F,Bb", Instrument::Ukulele).unwrap();
    assert_eq!(
        identify_with_tuning("0000", transposed_high_g)
            .unwrap()
            .primary
            .expect("transposed high-G primary")
            .symbol,
        "Db6"
    );

    let baritone_low_d = Tuning::parse_for_instrument("DGBE", Instrument::Ukulele).unwrap();
    assert_eq!(
        identify_with_tuning("0000", baritone_low_d)
            .unwrap()
            .primary
            .expect("linear baritone primary")
            .symbol,
        "G6/D"
    );

    let baritone_high_d = Tuning::parse_for_instrument("D4,G3,B3,E4", Instrument::Ukulele).unwrap();
    assert_eq!(
        identify_with_tuning("0000", baritone_high_d)
            .unwrap()
            .primary
            .expect("high-D baritone primary")
            .symbol,
        "G6"
    );

    let mixed = Tuning::parse_for_instrument("G4,C,E,A", Instrument::Ukulele)
        .expect_err("mixed tuning octaves should fail");
    assert!(mixed.to_string().contains("octaves"));
}

#[test]
fn golden_extended_dominant_shapes_identify_as_requested_family() {
    assert_eq!(primary("x32330"), "C9");
    assert_eq!(primary("878788"), "C9");
    assert_eq!(primary("x32323"), "C7b9");
    assert_eq!(primary("x6466x"), "Ebm9");
}

#[test]
fn tests_spells_flat_seventh_bass_from_chord_context() {
    let result = identify("x12010").unwrap();
    assert_eq!(result.primary.expect("primary analysis").symbol, "C7/Bb");
    let notes = result
        .notes
        .iter()
        .map(|note| note.note.to_string())
        .collect::<Vec<_>>();
    assert_eq!(notes, ["Bb", "E", "G", "C", "E"]);
}

#[test]
fn respells_played_notes_from_primary_flat_key_context() {
    let result = identify("x46664").unwrap();
    assert_eq!(result.primary.expect("primary analysis").symbol, "Db");
    let notes = result
        .notes
        .iter()
        .map(|note| note.note.to_string())
        .collect::<Vec<_>>();
    assert_eq!(notes, ["Db", "Ab", "Db", "F", "Ab"]);
}

#[test]
fn tests_prefers_common_flat_root_for_b_flat_major() {
    assert_eq!(primary("x13331"), "Bb");
}

#[test]
fn tests_distinguishes_half_diminished_from_full_diminished() {
    let half_diminished = identify("x3434x").unwrap();
    assert_eq!(
        half_diminished.primary.expect("primary analysis").symbol,
        "Cm7b5"
    );
    let notes = half_diminished
        .notes
        .iter()
        .map(|note| note.note.to_string())
        .collect::<Vec<_>>();
    assert_eq!(notes, ["C", "Gb", "Bb", "Eb"]);

    assert_eq!(primary("x3424x"), "Cdim7");
}

#[test]
fn tests_suppresses_redundant_duplicate_pitch_aliases() {
    let result = identify("021000").unwrap();
    assert_eq!(result.primary.expect("primary analysis").symbol, "Em(maj7)");
    let aliases = result
        .aliases
        .iter()
        .map(|analysis| analysis.symbol.as_str())
        .collect::<Vec<_>>();
    assert!(!aliases.contains(&"EmM7#9"));
    assert!(!aliases.contains(&"EmM9#9"));
    assert!(!aliases.contains(&"Em(maj7)#9"));
    assert!(!aliases.contains(&"Em(maj9)#9"));
}

#[test]
fn identifies_non_chord_slash_bass_voicings() {
    let result = identify("xx0010").unwrap();
    assert_eq!(
        result.primary.as_ref().expect("primary analysis").symbol,
        "C/D"
    );
    let aliases = result
        .aliases
        .iter()
        .map(|analysis| analysis.symbol.as_str())
        .collect::<Vec<_>>();
    assert!(!aliases.iter().any(|alias| alias.contains("#5no5")));
}

#[test]
fn identifies_non_chord_slash_bass_voicings_with_omissions() {
    let result = identify("xx0x10").unwrap();
    let primary = result.primary.as_ref().expect("primary analysis");
    assert_eq!(primary.symbol, "C/D");
    assert_eq!(primary.omissions, ["5"]);
}

#[test]
fn simple_inverted_dyads_hide_optional_fifth_omission_in_symbol() {
    let result = identify("476xxx").unwrap();
    let primary = result.primary.as_ref().expect("primary analysis");
    assert_eq!(primary.symbol, "E/G#");
    assert_eq!(primary.omissions, ["5"]);

    let result = identify("32x01x").unwrap();
    let primary = result.primary.as_ref().expect("primary analysis");
    assert_eq!(primary.symbol, "Gadd11");
    assert_eq!(primary.omissions, ["5"]);
}

#[test]
fn identifies_edge_enharmonic_roots_as_theoretical_aliases() {
    for (compact, expected) in [
        ("x24442", "Cb"),
        ("133211", "E#"),
        ("022100", "Fb"),
        ("x32010", "B#"),
    ] {
        let result = identify(compact).unwrap();
        assert!(
            result.aliases.iter().any(|analysis| {
                analysis.symbol == expected && analysis.class == AnalysisClass::TheoreticalAlias
            }),
            "{compact} should include {expected}: {result:#?}"
        );
    }
}

#[test]
fn tests_infers_rootless_and_no_third_omitted_analyses() {
    let rootless = identify("xx2000").unwrap();
    let aliases = rootless
        .aliases
        .iter()
        .map(|analysis| analysis.symbol.as_str())
        .collect::<Vec<_>>();
    assert!(aliases.contains(&"Cmaj7no1/E"));

    assert_eq!(primary("x353xx"), "C7no3");
    assert_eq!(primary("x354xx"), "Cmaj7no3");
}

#[test]
fn tests_classifies_theoretical_aliases_away_from_default_display() {
    let result = identify("x12010").unwrap();
    let edge_spelling_alias = result
        .aliases
        .iter()
        .find(|analysis| analysis.symbol == "B#7/A#")
        .expect("theoretical edge-spelling alias");
    assert_eq!(edge_spelling_alias.class, AnalysisClass::TheoreticalAlias);

    let useful_alias = result
        .aliases
        .iter()
        .find(|analysis| analysis.symbol == "C/Bb")
        .expect("useful slash alias");
    assert_eq!(useful_alias.class, AnalysisClass::UsefulAlias);
}

#[test]
fn root_spellings_run_through_pitch_classes_usual_first() {
    let names: Vec<String> = chordclaw::identify::candidate_root_spellings()
        .iter()
        .map(|n| n.to_string())
        .collect();
    let expected = [
        "C", "B#", "Db", "C#", "D", "Eb", "D#", "E", "Fb", "F", "E#", "F#", "Gb", "G", "Ab",
        "G#", "A", "Bb", "A#", "B", "Cb",
    ];
    assert_eq!(names, expected);
}

#[test]
fn candidate_specs_start_with_major_triad_and_end_with_half_diminished() {
    let specs = chordclaw::identify::candidate_specs();
    let first = specs.first().unwrap();
    assert_eq!(first.quality, chordclaw::Quality::Major);
    assert_eq!(first.seventh, chordclaw::Seventh::Absent);
    let last = specs.last().unwrap();
    assert_eq!(last.quality, chordclaw::Quality::Minor);
    assert_eq!(last.seventh, chordclaw::Seventh::Minor);
    assert_eq!(last.extension, Some(chordclaw::Extension::Ninth));
    assert_eq!(last.alteration_bits, 2);
}
