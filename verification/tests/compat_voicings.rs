use chordclaw::{voicings, VoicingMode, VoicingOptions, DEFAULT_LIMIT};


#[test]
fn lib_generates_voicings_for_altered_thirteenths() {
    let shapes = voicings(
        "C13b9",
        VoicingOptions {
                min_fret: 0,
                max_fret: 12,
                max_span: 4,
                mode: VoicingMode::Curated { limit: 5 },
            },
    )
    .unwrap();
    assert!(!shapes.is_empty());
}

#[test]
fn lib_generates_voicings_for_alt_chords() {
    let shapes = voicings("Calt", VoicingOptions::default()).unwrap();
    assert!(!shapes.is_empty());
    assert!(
        shapes
            .iter()
            .all(|shape| shape.notes.iter().any(|note| note == "Db"))
    );
}

#[test]
fn lib_ranks_common_c_shapes_above_weird_valid_shapes() {
    let shapes = voicings(
        "C",
        VoicingOptions {
                min_fret: 0,
                max_fret: 12,
                max_span: 4,
                mode: VoicingMode::Curated { limit: 15 },
            },
    )
    .unwrap();
    let compact = shapes
        .iter()
        .map(|shape| shape.compact.as_str())
        .collect::<Vec<_>>();

    assert_eq!(compact.first().copied(), Some("x32010"));
    assert!(compact.contains(&"x35553"));
    assert!(!compact.contains(&"x35510"));
    assert!(!compact.contains(&"8-10-10-9-8-0"));
}

#[test]
fn lib_diversifies_minor_voicings_across_positions() {
    let shapes = voicings(
        "Em",
        VoicingOptions {
                min_fret: 0,
                max_fret: 12,
                max_span: 4,
                mode: VoicingMode::Curated { limit: 15 },
            },
    )
    .unwrap();
    let compact = shapes
        .iter()
        .map(|shape| shape.compact.as_str())
        .collect::<Vec<_>>();

    assert_eq!(compact.first().copied(), Some("022000"));
    assert!(compact.contains(&"x79987"));
    assert!(compact.contains(&"079987"));
    assert!(!compact.contains(&"0x200x"));
}

#[test]
fn lib_ranks_canonical_open_and_barre_shapes_first() {
    let first_e = voicings("E", VoicingOptions::default())
        .unwrap()
        .first()
        .map(|shape| shape.compact.clone());
    assert_eq!(first_e.as_deref(), Some("022100"));

    let first_g = voicings("G", VoicingOptions::default())
        .unwrap()
        .first()
        .map(|shape| shape.compact.clone());
    assert_eq!(first_g.as_deref(), Some("320003"));

    let first_d = voicings("D", VoicingOptions::default())
        .unwrap()
        .first()
        .map(|shape| shape.compact.clone());
    assert_eq!(first_d.as_deref(), Some("xx0232"));

    let first_f = voicings("F", VoicingOptions::default())
        .unwrap()
        .first()
        .map(|shape| shape.compact.clone());
    assert_eq!(first_f.as_deref(), Some("133211"));
}

#[test]
fn lib_generates_rootless_voicings_when_root_is_omitted() {
    let shapes = voicings("Cno1", VoicingOptions::default()).unwrap();
    assert!(!shapes.is_empty());
    assert!(
        shapes
            .iter()
            .all(|shape| shape.notes.iter().all(|note| note != "C"))
    );
}

#[test]
fn lib_all_voicings_returns_more_than_the_default_limit() {
    let limited = voicings("C", VoicingOptions::default()).unwrap();
    let all = voicings(
        "C",
        VoicingOptions {
            mode: VoicingMode::All,
            ..VoicingOptions::default()
        },
    )
    .unwrap();

    assert_eq!(limited.len(), DEFAULT_LIMIT);
    assert!(all.len() > limited.len());
    assert_eq!(
        all.first().map(|shape| shape.compact.as_str()),
        Some("x32010")
    );
}
