use chordclaw::{
    analyze_symbol, identify, identify_with_tuning, rank_diverse_voicing_candidates,
    standard_tuning, voicings, voicings_with_tuning, AnalysisClass, GuitarTuning, IdentifyResult,
    InferredOmission, Instrument, Voicing, VoicingCandidate, VoicingMode, VoicingOptions,
    Tuning, VoicingScoreContext, DEFAULT_LIMIT, GUITAR7_STRING_COUNT, GUITAR8_STRING_COUNT, MAX_LIMIT,
    MAX_STRING_COUNT, UKULELE_STRING_COUNT,
};

fn candidates_from_voicings(voicings: &[Voicing]) -> Vec<VoicingCandidate> {
    voicings
        .iter()
        .map(|voicing| VoicingCandidate {
            frets: {
                let mut frets = [None; MAX_STRING_COUNT];
                for (idx, fret) in voicing.frets.iter().copied().enumerate() {
                    frets[idx] = fret;
                }
                frets
            },
            string_count: voicing.frets.len(),
            omissions: omission_degrees(&voicing.omissions),
            score: voicing.score,
        })
        .collect()
}

fn omission_degrees(omissions: &[String]) -> Vec<InferredOmission> {
    let mut out = Vec::new();
    for omission in omissions {
        let omission = match omission.as_str() {
            "1" => InferredOmission::Root,
            "3" => InferredOmission::Third,
            "5" => InferredOmission::Fifth,
            other => panic!("unexpected omission degree {other}"),
        };
        out.push(omission);
    }
    out
}

fn identifies_as_primary_or_useful_alias(result: &IdentifyResult, requested: &str) -> bool {
    result
        .primary
        .as_ref()
        .is_some_and(|analysis| symbol_matches_requested(&analysis.symbol, requested))
        || result.aliases.iter().any(|analysis| {
            symbol_matches_requested(&analysis.symbol, requested)
                && analysis.class == AnalysisClass::UsefulAlias
        })
}

fn symbol_matches_requested(actual: &str, requested: &str) -> bool {
    if actual == requested
        || actual
            .strip_prefix(requested)
            .is_some_and(|rest| rest.starts_with("(no") || rest.starts_with("no"))
    {
        return true;
    }

    let Some((requested_root, requested_bass)) = requested.split_once('/') else {
        return false;
    };
    actual
        .strip_prefix(requested_root)
        .and_then(|rest| {
            if rest.starts_with("(no") || rest.starts_with("no") {
                rest.rsplit_once('/')
            } else {
                None
            }
        })
        .is_some_and(|(_, actual_bass)| actual_bass == requested_bass)
}


#[test]
fn top_generated_voicing_identifies_as_requested_or_useful_alias() {
    for input in [
        "C", "Cm", "G", "Em", "C/G", "C/D", "C7", "Cmaj7", "C7sus4", "F#dim7", "Bbmaj7", "Dsus4",
    ] {
        let requested = analyze_symbol(input).unwrap().0.name();
        let shape = voicings(input, VoicingOptions::default())
            .unwrap()
            .into_iter()
            .next()
            .expect("top generated voicing");
        let result = identify(&shape.compact).unwrap();
        assert!(
            identifies_as_primary_or_useful_alias(&result, &requested),
            "{input} requested {requested}, generated {}, primary {:?}, aliases {:?}",
            shape.compact,
            result.primary,
            result.aliases
        );
    }
}

#[test]
fn supports_six_string_alternate_tunings() {
    let dadgad = GuitarTuning::parse("DADGAD").unwrap();
    assert_eq!(
        GuitarTuning::parse("D,A,D,G,A,D").unwrap().notes(),
        dadgad.notes()
    );

    let result = identify_with_tuning("000000", dadgad).unwrap();
    let notes = result
        .notes
        .iter()
        .map(|note| note.note.to_string())
        .collect::<Vec<_>>();
    assert_eq!(notes, ["D", "A", "D", "G", "A", "D"]);
    assert_eq!(result.primary.expect("primary analysis").symbol, "Dsus4");

    let shapes = voicings_with_tuning(
        "Dsus4",
        dadgad,
        VoicingOptions {
            mode: VoicingMode::Curated { limit: 5 },
            ..VoicingOptions::default()
        },
    )
    .unwrap();
    assert_eq!(
        shapes.first().map(|shape| shape.compact.as_str()),
        Some("000000")
    );
}

#[test]
fn supports_extended_range_guitar_tunings() {
    let seven = Tuning::parse("BEADGBE").unwrap();
    assert_eq!(seven.instrument(), Instrument::Guitar7);
    assert_eq!(seven.string_count(), GUITAR7_STRING_COUNT);
    let seven_open = identify_with_tuning("0000000", seven).unwrap();
    let seven_notes = seven_open
        .notes
        .iter()
        .map(|note| note.note.to_string())
        .collect::<Vec<_>>();
    assert_eq!(seven_notes, ["B", "E", "A", "D", "G", "B", "E"]);

    let eight = Tuning::parse("F#BEADGBE").unwrap();
    assert_eq!(eight.instrument(), Instrument::Guitar8);
    assert_eq!(eight.string_count(), GUITAR8_STRING_COUNT);
    let eight_open = identify_with_tuning("00000000", eight).unwrap();
    let eight_pitches = eight_open
        .notes
        .iter()
        .map(|note| note.pitch_class)
        .collect::<Vec<_>>();
    assert_eq!(eight_pitches, [6, 11, 4, 9, 2, 7, 11, 4]);

    let shapes = voicings_with_tuning(
        "E",
        Instrument::Guitar7.default_tuning(),
        VoicingOptions {
            mode: VoicingMode::Curated { limit: 1 },
            ..VoicingOptions::default()
        },
    )
    .unwrap();
    assert_eq!(shapes.first().expect("7-string voicing").frets.len(), 7);

    let shapes = voicings_with_tuning(
        "E",
        Instrument::Guitar8.default_tuning(),
        VoicingOptions {
            mode: VoicingMode::Curated { limit: 1 },
            ..VoicingOptions::default()
        },
    )
    .unwrap();
    assert_eq!(shapes.first().expect("8-string voicing").frets.len(), 8);
}

#[test]
fn ranks_common_ukulele_open_shapes_first() {
    let uke = Instrument::Ukulele.default_tuning();
    for (symbol, expected) in [("C", "0003"), ("Am", "2000"), ("F", "2010"), ("G", "0232")] {
        let shapes = voicings_with_tuning(symbol, uke, VoicingOptions::default()).unwrap();
        let first = shapes.first().expect("top ukulele voicing");
        assert_eq!(first.compact, expected, "{symbol}");
        assert_eq!(first.frets.len(), UKULELE_STRING_COUNT);
    }
}

#[test]
fn ranks_ukulele_e_major_low_grips_before_high_positions() {
    let uke = Instrument::Ukulele.default_tuning();
    let shapes = voicings_with_tuning("E", uke, VoicingOptions::default()).unwrap();
    let compact = shapes
        .iter()
        .map(|shape| shape.compact.as_str())
        .collect::<Vec<_>>();

    assert_eq!(
        &compact[..10],
        [
            "x442", "4442", "1x02", "1402", "1442", "444x", "4447", "14x2", "x877", "9877",
        ]
    );
}

#[test]
fn golden_guitar_default_voicings_start_with_musician_grips() {
    for (symbol, expected) in [
        ("C", "x32010"),
        ("G", "320003"),
        ("D", "xx0232"),
        ("A7", "x02020"),
        ("Cadd9", "x32030"),
        ("Dadd9", "x54230"),
        ("C9", "x32330"),
        ("C7b9", "x32320"),
    ] {
        let shapes = voicings(symbol, VoicingOptions::default()).unwrap();
        let first = shapes.first().expect("top guitar voicing");
        assert_eq!(first.compact, expected, "{symbol}");
    }
}

#[test]
fn golden_ukulele_default_voicings_start_with_musician_grips() {
    let uke = Instrument::Ukulele.default_tuning();
    for (symbol, expected) in [
        ("C", "0003"),
        ("G", "0232"),
        ("A", "2100"),
        ("E", "x442"),
        ("F", "2010"),
        ("Em", "0432"),
    ] {
        let shapes = voicings_with_tuning(symbol, uke, VoicingOptions::default()).unwrap();
        let first = shapes.first().expect("top ukulele voicing");
        assert_eq!(first.compact, expected, "{symbol}");
    }
}

#[test]
fn golden_ukulele_context_voicings_remain_useful_aliases() {
    let uke = Instrument::Ukulele.default_tuning();

    assert_eq!(
        identify_with_tuning("3203", uke)
            .unwrap()
            .primary
            .expect("C9 uke primary")
            .symbol,
        "C9"
    );

    let rootless_c13 = identify_with_tuning("2201", uke).unwrap();
    assert_eq!(
        rootless_c13.primary.expect("rootless C13 primary").symbol,
        "E7sus4b5"
    );
    assert!(rootless_c13.aliases.iter().any(|analysis| {
        analysis.symbol == "C13no1"
            && analysis.omissions == ["1", "5"]
            && analysis.class == AnalysisClass::UsefulAlias
    }));

    let c_over_g = identify_with_tuning("5787", uke).unwrap();
    assert_eq!(c_over_g.primary.expect("C/G primary").symbol, "C");
    assert!(c_over_g.aliases.iter().any(|analysis| {
        analysis.symbol == "C/G" && analysis.class == AnalysisClass::UsefulAlias
    }));

    let c_over_d = identify_with_tuning("x203", uke).unwrap();
    let c_over_d_primary = c_over_d.primary.expect("C/D omitted-fifth primary");
    assert_eq!(c_over_d_primary.symbol, "C/D");
    assert_eq!(c_over_d_primary.omissions, ["5"]);

    let c_over_d_shapes = voicings_with_tuning("C/D", uke, VoicingOptions::default()).unwrap();
    assert!(c_over_d_shapes.iter().all(|shape| {
        !shape
            .omissions
            .iter()
            .any(|omission| omission.as_str() == "3")
    }));

    let rootless_g9 = identify_with_tuning("2x12", uke).unwrap();
    assert!(rootless_g9.aliases.iter().any(|analysis| {
        analysis.symbol == "G9no1"
            && analysis.omissions == ["1", "5"]
            && analysis.class == AnalysisClass::UsefulAlias
    }));

    let half_diminished = identify_with_tuning("2000", uke).unwrap();
    assert_eq!(
        half_diminished
            .primary
            .expect("rootless half-diminished primary")
            .symbol,
        "Am"
    );
    assert!(half_diminished.aliases.iter().any(|analysis| {
        analysis.symbol == "F#m7b5no1" && analysis.class == AnalysisClass::UsefulAlias
    }));

    let altered = identify_with_tuning("3344", uke).unwrap();
    assert!(altered.aliases.iter().any(|analysis| {
        analysis.symbol == "Caltno1no3" && analysis.class == AnalysisClass::UsefulAlias
    }));

    let diminished = identify_with_tuning("3101", uke).unwrap();
    assert!(diminished.aliases.iter().any(|analysis| {
        analysis.symbol == "Gdim7no1" && analysis.class == AnalysisClass::UsefulAlias
    }));
}

#[test]
fn golden_top_five_voicings_round_trip_for_guitar_and_ukulele_corpus() {
    let guitar = Instrument::Guitar.default_tuning();
    let guitar7 = Instrument::Guitar7.default_tuning();
    let guitar8 = Instrument::Guitar8.default_tuning();
    let uke = Instrument::Ukulele.default_tuning();
    let guitar_corpus = &[
        "C", "G", "Dadd9", "A7", "C9", "C13", "G13", "C7b9", "C7#9", "C7#11", "Calt", "Bm7b5",
        "Gdim7",
    ][..];
    for (instrument, tuning, corpus) in [
        ("guitar", guitar, guitar_corpus),
        ("guitar7", guitar7, guitar_corpus),
        ("guitar8", guitar8, guitar_corpus),
        (
            "ukulele",
            uke,
            &[
                "C", "G", "E", "Em", "Cadd9", "Dadd9", "C/G", "C/E", "F/A", "C/D", "C/Db", "C/Eb",
                "C/Ab", "F#m7b5", "C9", "G9", "C13", "C7#9", "C7#11", "Calt", "Gdim7",
            ][..],
        ),
    ] {
        for symbol in corpus {
            let requested = analyze_symbol(symbol).unwrap().0.name();
            let shapes = voicings_with_tuning(
                symbol,
                tuning,
                VoicingOptions {
                    mode: VoicingMode::Curated { limit: 5 },
                    ..VoicingOptions::default()
                },
            )
            .unwrap();

            for shape in shapes {
                let result = identify_with_tuning(&shape.compact, tuning).unwrap();
                assert!(
                    identifies_as_primary_or_useful_alias(&result, &requested),
                    "{instrument} {symbol} requested {requested}, generated {}, primary {:?}, aliases {:?}",
                    shape.compact,
                    result.primary,
                    result.aliases
                );
            }
        }
    }
}

#[test]
fn tests_generates_voicings_for_altered_thirteenths() {
    let shapes = voicings(
        "C13b9",
        VoicingOptions {
            min_fret: 0,
            max_fret: 12,
            max_span: 4,
            mode: VoicingMode::Curated { limit: 5 },
        },
    )
    .unwrap();
    assert!(!shapes.is_empty());
}

#[test]
fn tests_generates_voicings_for_alt_chords() {
    let shapes = voicings("Calt", VoicingOptions::default()).unwrap();
    assert!(!shapes.is_empty());
    assert!(
        shapes
            .iter()
            .all(|shape| shape.notes.iter().any(|note| note == "Db"))
    );
}

#[test]
fn generates_non_chord_slash_bass_voicings() {
    let shapes = voicings("C/D", VoicingOptions::default()).unwrap();
    assert!(!shapes.is_empty());
    assert!(
        shapes
            .iter()
            .all(|shape| shape.notes.first().is_some_and(|note| note == "D"))
    );
    assert!(shapes.iter().any(|shape| {
        ["C", "E", "G"]
            .iter()
            .all(|note| shape.notes.iter().any(|played| played == note))
    }));
}

#[test]
fn generated_non_chord_slash_voicings_identify_back_as_primary() {
    for (chord, expected_shape) in [("C/Eb", "x65550"), ("C/Ab", "435553"), ("C/Db", "x45550")] {
        let shapes = voicings(
            chord,
            VoicingOptions {
                mode: VoicingMode::Curated { limit: 1 },
                ..VoicingOptions::default()
            },
        )
        .unwrap();
        assert_eq!(
            shapes.first().map(|shape| shape.compact.as_str()),
            Some(expected_shape)
        );

        let result = identify(expected_shape).unwrap();
        assert_eq!(
            result
                .primary
                .as_ref()
                .map(|analysis| analysis.symbol.as_str()),
            Some(chord),
            "{chord}: {result:?}"
        );
        assert_eq!(
            result.notes.first().map(|note| note.note.to_string()),
            chord.split('/').nth(1).map(str::to_owned),
            "{chord}: {result:?}"
        );
    }
}

#[test]
fn inferred_omissions_do_not_create_single_pitch_chords() {
    for fingering in ["x3xxxx", "x3x5xx"] {
        let result = identify(fingering).unwrap();
        assert_eq!(result.primary, None, "{fingering}: {result:?}");
        assert!(result.aliases.is_empty(), "{fingering}: {result:?}");
    }

    let fingering = "xx0x1x";
    let result = identify(fingering).unwrap();
    let symbols = result
        .primary
        .iter()
        .chain(result.aliases.iter())
        .map(|analysis| analysis.symbol.as_str())
        .collect::<Vec<_>>();
    assert!(
        symbols.iter().all(|symbol| !symbol.starts_with("C5no5")),
        "{fingering}: {symbols:?}"
    );

    let shapes = voicings(
        "C",
        VoicingOptions {
            max_fret: 5,
            max_span: 5,
            mode: VoicingMode::All,
            ..VoicingOptions::default()
        },
    )
    .unwrap();
    assert!(shapes.iter().all(|shape| {
        let distinct = shape
            .notes
            .iter()
            .collect::<std::collections::BTreeSet<_>>();
        distinct.len() >= 2
    }));
}

#[test]
fn generated_chord_tone_slash_voicings_identify_back_as_slash_chords() {
    let shapes = voicings("C/G", VoicingOptions::default()).unwrap();
    assert!(
        shapes.iter().any(|shape| shape.compact == "332010"),
        "{shapes:?}"
    );

    for fingering in ["332010", "xxx010"] {
        let result = identify(fingering).unwrap();
        assert_eq!(
            result.primary.as_ref().expect("primary analysis").symbol,
            "C/G",
            "{fingering}"
        );
    }
}

#[test]
fn tests_ranks_common_c_shapes_above_weird_valid_shapes() {
    let shapes = voicings(
        "C",
        VoicingOptions {
            min_fret: 0,
            max_fret: 12,
            max_span: 4,
            mode: VoicingMode::Curated { limit: 15 },
        },
    )
    .unwrap();
    let compact = shapes
        .iter()
        .map(|shape| shape.compact.as_str())
        .collect::<Vec<_>>();

    assert_eq!(compact.first().copied(), Some("x32010"));
    assert!(compact.contains(&"x35553"));
    assert!(!compact.contains(&"x35510"));
    assert!(!compact.contains(&"8-10-10-9-8-0"));
}

#[test]
fn tests_diversifies_minor_voicings_across_positions() {
    let shapes = voicings(
        "Em",
        VoicingOptions {
            min_fret: 0,
            max_fret: 12,
            max_span: 4,
            mode: VoicingMode::Curated { limit: 15 },
        },
    )
    .unwrap();
    let compact = shapes
        .iter()
        .map(|shape| shape.compact.as_str())
        .collect::<Vec<_>>();

    assert_eq!(compact.first().copied(), Some("022000"));
    assert!(compact.contains(&"x79987"));
    assert!(compact.contains(&"079987"));
    assert!(!compact.contains(&"0x200x"));
}

#[test]
fn tests_ranks_canonical_open_and_barre_shapes_first() {
    let first_e = voicings("E", VoicingOptions::default())
        .unwrap()
        .first()
        .map(|shape| shape.compact.clone());
    assert_eq!(first_e.as_deref(), Some("022100"));

    let first_g = voicings("G", VoicingOptions::default())
        .unwrap()
        .first()
        .map(|shape| shape.compact.clone());
    assert_eq!(first_g.as_deref(), Some("320003"));

    let first_d = voicings("D", VoicingOptions::default())
        .unwrap()
        .first()
        .map(|shape| shape.compact.clone());
    assert_eq!(first_d.as_deref(), Some("xx0232"));

    let first_f = voicings("F", VoicingOptions::default())
        .unwrap()
        .first()
        .map(|shape| shape.compact.clone());
    assert_eq!(first_f.as_deref(), Some("133211"));
}

#[test]
fn ranks_complete_g_major_grips_above_fragments() {
    let shapes = voicings("G", VoicingOptions::default()).unwrap();
    let compact = shapes
        .iter()
        .map(|shape| shape.compact.as_str())
        .collect::<Vec<_>>();

    assert_eq!(compact.first().copied(), Some("320003"));
    assert!(compact.contains(&"320033"));
    assert!(compact.contains(&"355433"));
    assert!(!compact.contains(&"xxx003"));
    assert!(!compact.contains(&"xxx007"));
    assert!(!compact.contains(&"32x43x"));
    assert!(!compact.contains(&"32x433"));

    let open_full = compact.iter().position(|shape| *shape == "320033").unwrap();
    if let Some(open_partial) = compact.iter().position(|shape| *shape == "32000x") {
        assert!(open_full < open_partial);
    }

    let barre_full = compact.iter().position(|shape| *shape == "355433").unwrap();
    if let Some(barre_partial) = compact.iter().position(|shape| *shape == "35543x") {
        assert!(barre_full < barre_partial);
    }
}

#[test]
fn tests_includes_common_omitted_fifth_dominant_voicings() {
    let shapes = voicings("C7", VoicingOptions::default()).unwrap();
    let compact = shapes
        .iter()
        .map(|shape| shape.compact.as_str())
        .collect::<Vec<_>>();

    assert_eq!(compact.first().copied(), Some("x32310"));
    assert!(compact.contains(&"x35353"));
    assert!(!compact.contains(&"x32313"));
    let omissions = shapes
        .first()
        .map(|shape| {
            shape
                .omissions
                .iter()
                .map(String::as_str)
                .collect::<Vec<_>>()
        })
        .unwrap_or_default();
    assert_eq!(omissions, ["5"]);
}

#[test]
fn includes_common_add_sus_slash_and_jazz_grips_in_curated_results() {
    for (chord, expected) in [
        ("Dadd9", "x54230"),
        ("Cadd9", "x32030"),
        ("Asus4", "x02230"),
        ("D/F#", "2x0232"),
        ("G/B", "x20033"),
        ("Dm7", "xx0211"),
        ("G7", "3x343x"),
        ("C7#9", "x3234x"),
    ] {
        let shapes = voicings(
            chord,
            VoicingOptions {
                mode: VoicingMode::Curated { limit: 40 },
                ..VoicingOptions::default()
            },
        )
        .unwrap();
        let compact = shapes
            .iter()
            .map(|shape| shape.compact.as_str())
            .collect::<Vec<_>>();

        assert!(compact.contains(&expected), "{chord}: {compact:?}");
    }
}

#[test]
fn bounded_default_voicings_match_unbounded_ranking() {
    for chord in ["C", "G", "Em", "C7", "G7", "C/D", "C13b9", "Calt"] {
        let options = VoicingOptions::default();
        let bounded = voicings(chord, options).unwrap();
        let all = voicings(
            chord,
            VoicingOptions {
                mode: VoicingMode::All,
                ..options
            },
        )
        .unwrap();
        let expected =
            rank_diverse_voicing_candidates(candidates_from_voicings(&all), DEFAULT_LIMIT);

        assert_eq!(candidates_from_voicings(&bounded), expected, "{chord}");
    }

    let dadgad = GuitarTuning::parse("DADGAD").unwrap();
    let options = VoicingOptions::default();
    let bounded = voicings_with_tuning("Dsus4", dadgad, options).unwrap();
    let all = voicings_with_tuning(
        "Dsus4",
        dadgad,
        VoicingOptions {
            mode: VoicingMode::All,
            ..options
        },
    )
    .unwrap();
    let expected = rank_diverse_voicing_candidates(candidates_from_voicings(&all), DEFAULT_LIMIT);
    assert_eq!(candidates_from_voicings(&bounded), expected);
}

#[test]
fn voicing_score_breakdown_matches_generated_score() {
    let tuning = standard_tuning();
    let score_context = VoicingScoreContext::new("C13b9", tuning).unwrap();
    let shapes = voicings(
        "C13b9",
        VoicingOptions {
            mode: VoicingMode::Curated { limit: 8 },
            ..VoicingOptions::default()
        },
    )
    .unwrap();

    for shape in shapes {
        let breakdown = score_context.breakdown(&shape.frets).unwrap();
        assert_eq!(breakdown.total, shape.score, "{}", shape.compact);
    }
}

#[test]
fn voicing_score_breakdown_rejects_extra_pitches() {
    let score_context = VoicingScoreContext::new("C", standard_tuning()).unwrap();
    let error = score_context
        .breakdown(&[None, Some(3), Some(0), Some(0), Some(1), Some(0)])
        .expect_err("non-chord pitch should fail");

    assert!(error.to_string().contains("outside the chord"), "{error:?}");
}

#[test]
fn zero_limit_skips_default_voicing_collection() {
    let shapes = voicings(
        "C",
        VoicingOptions {
            mode: VoicingMode::Curated { limit: 0 },
            ..VoicingOptions::default()
        },
    )
    .unwrap();
    assert!(shapes.is_empty());
}

#[test]
fn curated_limit_has_a_hard_cap() {
    let error = voicings(
        "C",
        VoicingOptions {
            mode: VoicingMode::Curated {
                limit: MAX_LIMIT + 1,
            },
            ..VoicingOptions::default()
        },
    )
    .expect_err("oversized curated limit should fail");

    assert!(error.to_string().contains("invalid limit"), "{error:?}");
}

#[test]
fn tests_generates_rootless_voicings_when_root_is_omitted() {
    let shapes = voicings("Cno1", VoicingOptions::default()).unwrap();
    assert!(!shapes.is_empty());
    assert!(
        shapes
            .iter()
            .all(|shape| shape.notes.iter().all(|note| note != "C"))
    );
}

#[test]
fn automatically_generates_rootless_voicings_for_extended_chords() {
    let shapes = voicings(
        "Cmaj7",
        VoicingOptions {
            mode: VoicingMode::All,
            ..VoicingOptions::default()
        },
    )
    .unwrap();

    assert!(shapes.iter().any(|shape| {
        shape.omissions.iter().map(String::as_str).eq(["1"])
            && shape.notes.iter().all(|note| note != "C")
    }));
    assert!(shapes.iter().any(|shape| {
        shape.omissions.iter().map(String::as_str).eq(["3"])
            && shape.notes.iter().all(|note| note != "E")
    }));
}

#[test]
fn keeps_compact_jazz_shells_in_the_curated_results() {
    let shapes = voicings("G7", VoicingOptions::default()).unwrap();
    let compact = shapes
        .iter()
        .map(|shape| shape.compact.as_str())
        .collect::<Vec<_>>();

    assert!(compact.contains(&"3x343x"));
}

#[test]
fn min_fret_generates_only_shapes_inside_the_requested_range() {
    let shapes = voicings(
        "C",
        VoicingOptions {
            min_fret: 12,
            max_fret: 15,
            max_span: 4,
            mode: VoicingMode::Curated { limit: 15 },
        },
    )
    .unwrap();

    assert!(!shapes.is_empty());
    for shape in shapes {
        let fretted = shape.frets.iter().flatten().copied().collect::<Vec<_>>();
        assert!(!fretted.is_empty(), "{}", shape.compact);
        assert!(
            fretted.iter().all(|fret| (12..=15).contains(fret)),
            "{}: {:?}",
            shape.compact,
            fretted
        );
    }
}

#[test]
fn tests_all_voicings_returns_more_than_the_default_limit() {
    let limited = voicings("C", VoicingOptions::default()).unwrap();
    let all = voicings(
        "C",
        VoicingOptions {
            mode: VoicingMode::All,
            ..VoicingOptions::default()
        },
    )
    .unwrap();

    assert_eq!(limited.len(), DEFAULT_LIMIT);
    assert!(all.len() > limited.len());
    assert_eq!(
        all.first().map(|shape| shape.compact.as_str()),
        Some("x32010")
    );
}

#[test]
fn wide_curated_pruning_matches_unbounded_ranking() {
    let options = VoicingOptions {
        max_fret: 12,
        max_span: 8,
        mode: VoicingMode::Curated { limit: 50 },
        ..VoicingOptions::default()
    };
    let bounded = voicings("Calt", options).unwrap();
    let all = voicings(
        "Calt",
        VoicingOptions {
            mode: VoicingMode::All,
            ..options
        },
    )
    .unwrap();
    let expected = rank_diverse_voicing_candidates(candidates_from_voicings(&all), 50);

    assert_eq!(candidates_from_voicings(&bounded), expected);
}

#[test]
fn all_voicings_has_a_hard_result_cap() {
    let error = voicings(
        "Calt",
        VoicingOptions {
            max_fret: 30,
            max_span: 30,
            mode: VoicingMode::All,
            ..VoicingOptions::default()
        },
    )
    .expect_err("pathological --all result should fail");

    assert!(error.to_string().contains("--all cap"), "{error:?}");
}

#[test]
fn tests_rejects_frets_outside_standard_guitar_range() {
    let error = identify("31-x-x-x-x-x").expect_err("fret above 30 should fail");
    assert!(
        error.to_string().contains("standard guitar range"),
        "{error:?}"
    );

    let error = voicings(
        "C",
        VoicingOptions {
            min_fret: 31,
            ..VoicingOptions::default()
        },
    )
    .expect_err("min fret above 30 should fail");
    assert!(
        error.to_string().contains("standard guitar range"),
        "{error:?}"
    );

    let error = voicings(
        "C",
        VoicingOptions {
            max_fret: 31,
            ..VoicingOptions::default()
        },
    )
    .expect_err("max fret above 30 should fail");
    assert!(
        error.to_string().contains("standard guitar range"),
        "{error:?}"
    );

    let error = voicings(
        "C",
        VoicingOptions {
            max_span: 31,
            ..VoicingOptions::default()
        },
    )
    .expect_err("max span above 30 should fail");
    assert!(
        error.to_string().contains("standard guitar range"),
        "{error:?}"
    );

    let error = voicings(
        "C",
        VoicingOptions {
            min_fret: 13,
            max_fret: 12,
            ..VoicingOptions::default()
        },
    )
    .expect_err("min fret above max fret should fail");
    assert!(error.to_string().contains("min_fret"), "{error:?}");
}
