use chordclaw::{voicings, Alteration, Instrument, NoteLetter, NoteName, PitchClass, Tuning, VoicingMode, VoicingOptions};

#[test]
fn default_tunings_hold_their_standard_notes() {
    let names = |t: &Tuning| -> Vec<String> { t.notes().iter().map(|n| n.to_string()).collect() };
    assert_eq!(names(&Instrument::Ukulele.default_tuning()), ["G", "C", "E", "A"]);
    assert_eq!(names(&Instrument::Guitar7.default_tuning()), ["B", "E", "A", "D", "G", "B", "E"]);
    assert_eq!(names(&Instrument::Guitar8.default_tuning()), ["F#", "B", "E", "A", "D", "G", "B", "E"]);
    assert_eq!(names(&Instrument::Guitar.default_tuning()), ["E", "A", "D", "G", "B", "E"]);
}

#[test]
fn standard_tuning_text_gives_the_standard_open_pitches() {
    let parsed = Tuning::parse("standard").unwrap();
    let standard = chordclaw::standard_tuning();
    for s in 0..6 {
        assert_eq!(parsed.absolute_pitch(s, 0), standard.absolute_pitch(s, 0));
    }
    assert_eq!(parsed.string_count(), parsed.instrument().string_count());
}

#[test]
fn error_messages_name_the_problem() {
    let e = NoteName::new(NoteLetter::B, 3).unwrap_err();
    assert_eq!(e.message(), "too many accidentals for note 'B###'");
    let e = Alteration::new(7, 1).unwrap_err();
    assert_eq!(e.message(), "invalid alteration degree '7'");
    let e = Alteration::new(11, -1).unwrap_err();
    assert_eq!(e.message(), "unsupported alteration 'b11'");
    let e = Instrument::parse(" Banjo ").unwrap_err();
    assert_eq!(e.message(), "unsupported instrument 'banjo': expected guitar, guitar7, guitar8, or ukulele");
    let e = NoteName::parse("C7").unwrap_err();
    assert_eq!(e.message(), "invalid note 'C7'");
    let e = Tuning::parse("EADGBEADG").unwrap_err();
    assert_eq!(e.message(), "expected 4, 6, 7, or 8 tuning notes, got 9");
}

#[test]
fn transpose_accepts_shifts_up_to_the_i16_limit() {
    let c = PitchClass::new(0);
    assert_eq!(c.transpose(i16::MAX).value(), (i16::MAX % 12) as u8);
    assert_eq!(c.transpose(i16::MIN).value(), 4);
    assert_eq!(c.transpose(7).transpose(-7).value(), 0);
}

#[test]
fn voicing_texts_and_options_errors_follow_the_frets() {
    let all = VoicingOptions { min_fret: 0, max_fret: 5, max_span: 4, mode: VoicingMode::All };
    for v in voicings("C", all).unwrap() {
        let dashed: Vec<String> = v.frets.iter().map(|f| match f {
            Some(x) => x.to_string(),
            None => "x".to_string(),
        }).collect();
        assert_eq!(v.dashed, dashed.join("-"));
        if v.frets.iter().all(|f| f.map_or(true, |x| x <= 9)) {
            assert_eq!(v.compact, dashed.concat());
        }
    }
    let bad = VoicingOptions { min_fret: 31, max_fret: 5, max_span: 4, mode: VoicingMode::All };
    assert_eq!(
        voicings("Calt", bad).unwrap_err().message(),
        "invalid min_fret '31': standard guitar range is 0..=30"
    );
}

#[test]
fn fingering_and_tuning_errors_state_their_counts() {
    assert_eq!(
        chordclaw::Fingering::parse_with_string_count("0000000", 6).unwrap_err().message(),
        "expected 6 strings, got 7"
    );
    assert_eq!(
        chordclaw::Fingering::parse_with_string_count("00000", 5).unwrap_err().message(),
        "expected 4, 6, 7, or 8 strings, got 5"
    );
    assert_eq!(
        chordclaw::Fingering::parse("31-x-x-x-x-x").unwrap_err().message(),
        "invalid fret '31': standard guitar range is 0..=30"
    );
    assert_eq!(
        chordclaw::identify("31-x-x-x-x-x").unwrap_err().message(),
        "invalid fret '31': standard guitar range is 0..=30"
    );
    assert_eq!(
        Tuning::parse_for_instrument("G,C,E", Instrument::Ukulele).unwrap_err().message(),
        "expected 4 tuning notes, got 3"
    );
    assert_eq!(
        Tuning::parse_for_instrument("G4,C,E,A", Instrument::Ukulele).unwrap_err().message(),
        "invalid tuning: provide octaves for every note or for none"
    );
    let uke = Tuning::parse_for_instrument("standard", Instrument::Ukulele).unwrap();
    let names: Vec<String> = uke.notes().iter().map(|n| n.to_string()).collect();
    assert_eq!(names, ["G", "C", "E", "A"]);
}

#[test]
fn voicing_option_errors_name_the_bad_value() {
    let inverted = VoicingOptions { min_fret: 7, max_fret: 5, max_span: 4, mode: VoicingMode::All };
    assert_eq!(
        voicings("C", inverted).unwrap_err().message(),
        "invalid fret range: min_fret '7' cannot exceed max_fret '5'"
    );
    let too_many = VoicingOptions { min_fret: 0, max_fret: 5, max_span: 4, mode: VoicingMode::Curated { limit: 1001 } };
    assert_eq!(
        voicings("C", too_many).unwrap_err().message(),
        "invalid limit '1001': curated voicing limit is 0..=1000; use --all for exhaustive output"
    );
}

#[test]
fn exhaustive_voicings_list_each_fretting_once() {
    let all = VoicingOptions { min_fret: 0, max_fret: 5, max_span: 4, mode: VoicingMode::All };
    let list = voicings("G", all).unwrap();
    for (i, a) in list.iter().enumerate() {
        for b in &list[i + 1..] {
            assert_ne!(a.frets, b.frets);
        }
    }
    assert!(list.iter().any(|v| v.frets == vec![Some(3), Some(2), Some(0), Some(0), Some(0), Some(3)]));
}
