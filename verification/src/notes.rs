use vstd::prelude::*;

use crate::parse::{normalize_chart_glyphs, normalized_glyphs, note_prefix, parse_note_prefix};
use crate::text::{
    chars_to_string, decimal, is_space, is_whitespace, push_chars, push_decimal, push_str, push_usize, str_to_chars,
    decimal_text_value, digits_value, is_digit, lead_digits, lemma_digits_value_grows, lemma_lead_digits,
    lemma_digits_value_nonnegative, lower, parse_decimal_range, to_lower, trim_bounds, trim_end_len, trim_start_len, trimmed, trim_range, range_equals, range_equals_ignore_case,
};
use crate::{
    ChordClawError, GUITAR7_STRING_COUNT, GUITAR8_STRING_COUNT, GUITAR_STRING_COUNT,
    MAX_NOTE_ACCIDENTALS, MAX_STANDARD_FRET, MAX_STRING_COUNT, UKULELE_STRING_COUNT,
};

verus! {

/// `v` reduced into `0..12`.
pub open spec fn pitch_mod(v: int) -> int {
    v % 12
}

/// A pitch class, `0..12`, with C at 0.
#[derive(Copy, Clone, Debug, PartialEq, Eq, Structural, Hash)]
pub struct PitchClass(pub(crate) u8);

impl PitchClass {
    #[verifier::type_invariant]
    spec fn inv(self) -> bool {
        self.0 < 12
    }

    /// The numeric value of this pitch class.
    pub closed spec fn spec_value(self) -> u8 {
        self.0
    }

    /// The pitch class of `value` semitones above C.
    pub fn new(value: i16) -> (p: Self)
        ensures
            p.spec_value() == pitch_mod(value as int),
    {
        let mut normalized = value % 12;
        if normalized < 0 {
            normalized += 12;
        }
        assert(normalized == pitch_mod(value as int));
        PitchClass(normalized as u8)
    }

    /// The pitch class with value `value`.
    pub(crate) fn from_value(value: u8) -> (p: Self)
        requires
            value < 12,
        ensures
            p.spec_value() == value,
    {
        PitchClass(value)
    }

    /// The numeric value of this pitch class, `0..12`.
    pub fn value(self) -> (v: u8)
        ensures
            v == self.spec_value(),
            v < 12,
    {
        proof {
            use_type_invariant(self);
        }
        self.0
    }

    /// This pitch class moved up by `semitones` (down when negative).
    pub fn transpose(self, semitones: i16) -> (p: Self)
        requires
            self.spec_value() + semitones <= i16::MAX,
        ensures
            p.spec_value() == pitch_mod(self.spec_value() + semitones),
    {
        let v = self.value();
        Self::new(v as i16 + semitones)
    }
}

/// Moving by `a` then by `b` semitones is moving by `a + b`.
pub proof fn lemma_transpose_compose(v: int, a: int, b: int)
    ensures
        pitch_mod(pitch_mod(v + a) + b) == pitch_mod(v + a + b),
{
    assert(pitch_mod(pitch_mod(v + a) + b) == pitch_mod(v + a + b)) by (nonlinear_arith);
}

/// A note letter.
#[derive(Copy, Clone, Debug, Eq, PartialEq, Ord, PartialOrd, Hash, Structural)]
pub enum NoteLetter {
    C,
    D,
    E,
    F,
    G,
    A,
    B,
}

/// Semitones above C of the natural note `letter`.
pub open spec fn base_pitch_of(letter: NoteLetter) -> int {
    match letter {
        NoteLetter::C => 0,
        NoteLetter::D => 2,
        NoteLetter::E => 4,
        NoteLetter::F => 5,
        NoteLetter::G => 7,
        NoteLetter::A => 9,
        NoteLetter::B => 11,
    }
}

/// Position of `letter` in C D E F G A B.
pub open spec fn letter_index(letter: NoteLetter) -> int {
    match letter {
        NoteLetter::C => 0,
        NoteLetter::D => 1,
        NoteLetter::E => 2,
        NoteLetter::F => 3,
        NoteLetter::G => 4,
        NoteLetter::A => 5,
        NoteLetter::B => 6,
    }
}

/// The letter at position `i` (taken mod 7) of C D E F G A B.
pub open spec fn letter_at(i: int) -> NoteLetter {
    let k = i % 7;
    if k == 0 {
        NoteLetter::C
    } else if k == 1 {
        NoteLetter::D
    } else if k == 2 {
        NoteLetter::E
    } else if k == 3 {
        NoteLetter::F
    } else if k == 4 {
        NoteLetter::G
    } else if k == 5 {
        NoteLetter::A
    } else {
        NoteLetter::B
    }
}

/// The letter named by `c`, in either case.
pub open spec fn letter_of_char(c: char) -> Option<NoteLetter> {
    let u = crate::text::upper(c);
    if u == 'C' {
        Some(NoteLetter::C)
    } else if u == 'D' {
        Some(NoteLetter::D)
    } else if u == 'E' {
        Some(NoteLetter::E)
    } else if u == 'F' {
        Some(NoteLetter::F)
    } else if u == 'G' {
        Some(NoteLetter::G)
    } else if u == 'A' {
        Some(NoteLetter::A)
    } else if u == 'B' {
        Some(NoteLetter::B)
    } else {
        None
    }
}

/// The upper-case character of `letter`.
pub open spec fn letter_char(letter: NoteLetter) -> char {
    match letter {
        NoteLetter::C => 'C',
        NoteLetter::D => 'D',
        NoteLetter::E => 'E',
        NoteLetter::F => 'F',
        NoteLetter::G => 'G',
        NoteLetter::A => 'A',
        NoteLetter::B => 'B',
    }
}

impl NoteLetter {
    /// The letter named by `ch`, in either case.
    pub fn from_ascii(ch: char) -> (r: Option<Self>)
        ensures
            r == letter_of_char(ch),
    {
        let u = crate::text::to_upper(ch);
        if u == 'C' {
            Some(NoteLetter::C)
        } else if u == 'D' {
            Some(NoteLetter::D)
        } else if u == 'E' {
            Some(NoteLetter::E)
        } else if u == 'F' {
            Some(NoteLetter::F)
        } else if u == 'G' {
            Some(NoteLetter::G)
        } else if u == 'A' {
            Some(NoteLetter::A)
        } else if u == 'B' {
            Some(NoteLetter::B)
        } else {
            None
        }
    }

    /// Semitones above C of the natural note.
    pub fn base_pitch(self) -> (p: i16)
        ensures
            p == base_pitch_of(self),
    {
        match self {
            NoteLetter::C => 0,
            NoteLetter::D => 2,
            NoteLetter::E => 4,
            NoteLetter::F => 5,
            NoteLetter::G => 7,
            NoteLetter::A => 9,
            NoteLetter::B => 11,
        }
    }

    /// Position in C D E F G A B.
    pub fn index(self) -> (i: usize)
        ensures
            i == letter_index(self),
    {
        match self {
            NoteLetter::C => 0,
            NoteLetter::D => 1,
            NoteLetter::E => 2,
            NoteLetter::F => 3,
            NoteLetter::G => 4,
            NoteLetter::A => 5,
            NoteLetter::B => 6,
        }
    }

    /// The upper-case character of this letter.
    pub fn char(self) -> (c: char)
        ensures
            c == letter_char(self),
    {
        match self {
            NoteLetter::C => 'C',
            NoteLetter::D => 'D',
            NoteLetter::E => 'E',
            NoteLetter::F => 'F',
            NoteLetter::G => 'G',
            NoteLetter::A => 'A',
            NoteLetter::B => 'B',
        }
    }

    /// The letter `steps` positions later, wrapping after B.
    pub fn advance(self, steps: u8) -> (r: Self)
        ensures
            r == letter_at(letter_index(self) + steps),
    {
        let idx = (self.index() + steps as usize) % 7;
        if idx == 0 {
            NoteLetter::C
        } else if idx == 1 {
            NoteLetter::D
        } else if idx == 2 {
            NoteLetter::E
        } else if idx == 3 {
            NoteLetter::F
        } else if idx == 4 {
            NoteLetter::G
        } else if idx == 5 {
            NoteLetter::A
        } else {
            NoteLetter::B
        }
    }
}

/// A spelled note: a letter with sharps (positive) or flats (negative).
#[derive(Copy, Clone, Debug, Eq, PartialEq, Ord, PartialOrd, Hash, Structural)]
pub struct NoteName {
    pub letter: NoteLetter,
    pub accidental: i8,
}

/// The pitch class value of a spelled note.
pub open spec fn note_pitch(note: NoteName) -> int {
    pitch_mod(base_pitch_of(note.letter) + note.accidental)
}

/// The accidental that spells pitch `target` on `letter`, in `-6..=6`.
pub open spec fn spelled_accidental(letter: NoteLetter, target: int) -> int {
    let d = target - base_pitch_of(letter);
    if d > 6 {
        d - 12
    } else if d < -6 {
        d + 12
    } else {
        d
    }
}

/// The accidental characters of `accidental`: sharps or flats.
pub open spec fn accidental_chars(accidental: int) -> Seq<char> {
    if accidental < 0 {
        Seq::new((-accidental) as nat, |i: int| 'b')
    } else {
        Seq::new(accidental as nat, |i: int| '#')
    }
}

/// The text of a note: its letter, then its accidentals.
pub open spec fn note_text(note: NoteName) -> Seq<char> {
    seq![letter_char(note.letter)] + accidental_chars(note.accidental as int)
}

/// The sharp spelling of pitch value `v`.
pub open spec fn sharp_name(v: int) -> NoteName {
    if v == 0 {
        NoteName { letter: NoteLetter::C, accidental: 0 }
    } else if v == 1 {
        NoteName { letter: NoteLetter::C, accidental: 1 }
    } else if v == 2 {
        NoteName { letter: NoteLetter::D, accidental: 0 }
    } else if v == 3 {
        NoteName { letter: NoteLetter::D, accidental: 1 }
    } else if v == 4 {
        NoteName { letter: NoteLetter::E, accidental: 0 }
    } else if v == 5 {
        NoteName { letter: NoteLetter::F, accidental: 0 }
    } else if v == 6 {
        NoteName { letter: NoteLetter::F, accidental: 1 }
    } else if v == 7 {
        NoteName { letter: NoteLetter::G, accidental: 0 }
    } else if v == 8 {
        NoteName { letter: NoteLetter::G, accidental: 1 }
    } else if v == 9 {
        NoteName { letter: NoteLetter::A, accidental: 0 }
    } else if v == 10 {
        NoteName { letter: NoteLetter::A, accidental: 1 }
    } else {
        NoteName { letter: NoteLetter::B, accidental: 0 }
    }
}

/// The flat spelling of pitch value `v`.
pub open spec fn flat_name(v: int) -> NoteName {
    if v == 0 {
        NoteName { letter: NoteLetter::C, accidental: 0 }
    } else if v == 1 {
        NoteName { letter: NoteLetter::D, accidental: -1i8 }
    } else if v == 2 {
        NoteName { letter: NoteLetter::D, accidental: 0 }
    } else if v == 3 {
        NoteName { letter: NoteLetter::E, accidental: -1i8 }
    } else if v == 4 {
        NoteName { letter: NoteLetter::E, accidental: 0 }
    } else if v == 5 {
        NoteName { letter: NoteLetter::F, accidental: 0 }
    } else if v == 6 {
        NoteName { letter: NoteLetter::G, accidental: -1i8 }
    } else if v == 7 {
        NoteName { letter: NoteLetter::G, accidental: 0 }
    } else if v == 8 {
        NoteName { letter: NoteLetter::A, accidental: -1i8 }
    } else if v == 9 {
        NoteName { letter: NoteLetter::A, accidental: 0 }
    } else if v == 10 {
        NoteName { letter: NoteLetter::B, accidental: -1i8 }
    } else {
        NoteName { letter: NoteLetter::B, accidental: 0 }
    }
}

/// Appends sharps or flats for `accidental` to `out`.
pub fn push_accidentals(out: &mut Vec<char>, accidental: i8)
    ensures
        final(out)@ == old(out)@ + accidental_chars(accidental as int),
{
    let ghost start = out@;
    let ch = if accidental < 0 { 'b' } else { '#' };
    let count: i16 = if accidental < 0 { -(accidental as i16) } else { accidental as i16 };
    let mut i: i16 = 0;
    while i < count
        invariant
            0 <= i <= count,
            count == if accidental < 0 { -(accidental as int) } else { accidental as int },
            ch == if accidental < 0 { 'b' } else { '#' },
            out@ == start + Seq::new(i as nat, |k: int| ch),
        decreases count - i,
    {
        out.push(ch);
        i += 1;
        assert(out@ =~= start + Seq::new(i as nat, |k: int| ch));
    }
    assert(Seq::new(count as nat, |k: int| ch) =~= accidental_chars(accidental as int));
}

impl NoteName {
    /// A note, rejecting more than two sharps or flats.
    pub fn new(letter: NoteLetter, accidental: i8) -> (r: Result<Self, ChordClawError>)
        ensures
            r is Ok <==> -2 <= accidental <= 2,
            r matches Ok(n) ==> n.letter == letter && n.accidental == accidental,
            r matches Err(e) ==> e.spec_message() == "too many accidentals for note '"@ + seq![letter_char(letter)]
                + accidental_chars(accidental as int) + seq!['\''],
    {
        if accidental > 2 || accidental < -2 {
            let mut msg: Vec<char> = Vec::new();
            push_str(&mut msg, "too many accidentals for note '");
            msg.push(letter.char());
            push_accidentals(&mut msg, accidental);
            msg.push('\'');
            return Err(ChordClawError::from_chars(&msg));
        }
        Ok(NoteName { letter, accidental })
    }

    /// Parses a complete note name such as `F#`, `Bb`, or `C♯`.
    pub fn parse(input: &str) -> (r: Result<Self, ChordClawError>)
        ensures
            r is Ok <==> (note_prefix(normalized_glyphs(input@)) matches Some((_, k)) && k
                == normalized_glyphs(input@).len()),
            r matches Ok(n) ==> note_prefix(normalized_glyphs(input@)) == Some(
                (n, normalized_glyphs(input@).len() as int),
            ),
            r matches Ok(n) ==> -2 <= n.accidental <= 2,
            (note_prefix(normalized_glyphs(input@)) matches Some((_, k)) && k < normalized_glyphs(input@).len())
                ==> (r matches Err(e) && e.spec_message() == "invalid note '"@ + input@ + seq!['\'']),
    {
        let raw = str_to_chars(input);
        let normalized = normalize_chart_glyphs(&raw);
        assert(normalized@.subrange(0, normalized@.len() as int) == normalized@);
        match parse_note_prefix(normalized.as_slice(), 0, normalized.len()) {
            Ok((note, end)) => {
                if end == normalized.len() {
                    Ok(note)
                } else {
                    let mut msg: Vec<char> = Vec::new();
                    push_str(&mut msg, "invalid note '");
                    push_chars(&mut msg, raw.as_slice());
                    msg.push('\'');
                    Err(ChordClawError::from_chars(&msg))
                }
            },
            Err(e) => Err(e),
        }
    }

    /// The letter of this note.
    pub fn letter(self) -> (l: NoteLetter)
        ensures
            l == self.letter,
    {
        self.letter
    }

    /// The accidental of this note: sharps positive, flats negative.
    pub fn accidental(self) -> (a: i8)
        ensures
            a == self.accidental,
    {
        self.accidental
    }

    /// The pitch class this note sounds.
    pub fn pitch_class(self) -> (p: PitchClass)
        ensures
            p.spec_value() == note_pitch(self),
    {
        PitchClass::new(self.letter.base_pitch() + self.accidental as i16)
    }

    /// Spells `pitch` on `letter` with the nearest accidental.
    pub fn spell_for_pitch(letter: NoteLetter, pitch: PitchClass) -> (n: Self)
        ensures
            n.letter == letter,
            n.accidental == spelled_accidental(letter, pitch.spec_value() as int),
            -6 <= n.accidental <= 6,
            note_pitch(n) == pitch.spec_value(),
    {
        let target = pitch.value() as i16;
        let base = letter.base_pitch();
        let mut accidental = target - base;
        if accidental > 6 {
            accidental -= 12;
        } else if accidental < -6 {
            accidental += 12;
        }
        let n = NoteName { letter, accidental: accidental as i8 };
        assert(note_pitch(n) == pitch.spec_value()) by {
            assert(pitch_mod(target as int) == target);
            assert(pitch_mod(base + accidental) == pitch_mod(target as int)) by (nonlinear_arith)
                requires
                    accidental == target - base || accidental == target - base - 12 || accidental
                        == target - base + 12,
            ;
        }
        n
    }

    /// The plain sharp or flat spelling of `pitch`.
    pub fn simple_for_pitch(pitch: PitchClass, prefer_flats: bool) -> (n: Self)
        ensures
            prefer_flats ==> n == flat_name(pitch.spec_value() as int),
            !prefer_flats ==> n == sharp_name(pitch.spec_value() as int),
            note_pitch(n) == pitch.spec_value(),
            -1 <= n.accidental <= 1,
    {
        let v = pitch.value();
        if prefer_flats {
            if v == 0 {
                NoteName { letter: NoteLetter::C, accidental: 0 }
            } else if v == 1 {
                NoteName { letter: NoteLetter::D, accidental: -1i8 }
            } else if v == 2 {
                NoteName { letter: NoteLetter::D, accidental: 0 }
            } else if v == 3 {
                NoteName { letter: NoteLetter::E, accidental: -1i8 }
            } else if v == 4 {
                NoteName { letter: NoteLetter::E, accidental: 0 }
            } else if v == 5 {
                NoteName { letter: NoteLetter::F, accidental: 0 }
            } else if v == 6 {
                NoteName { letter: NoteLetter::G, accidental: -1i8 }
            } else if v == 7 {
                NoteName { letter: NoteLetter::G, accidental: 0 }
            } else if v == 8 {
                NoteName { letter: NoteLetter::A, accidental: -1i8 }
            } else if v == 9 {
                NoteName { letter: NoteLetter::A, accidental: 0 }
            } else if v == 10 {
                NoteName { letter: NoteLetter::B, accidental: -1i8 }
            } else {
                NoteName { letter: NoteLetter::B, accidental: 0 }
            }
        } else {
            if v == 0 {
                NoteName { letter: NoteLetter::C, accidental: 0 }
            } else if v == 1 {
                NoteName { letter: NoteLetter::C, accidental: 1 }
            } else if v == 2 {
                NoteName { letter: NoteLetter::D, accidental: 0 }
            } else if v == 3 {
                NoteName { letter: NoteLetter::D, accidental: 1 }
            } else if v == 4 {
                NoteName { letter: NoteLetter::E, accidental: 0 }
            } else if v == 5 {
                NoteName { letter: NoteLetter::F, accidental: 0 }
            } else if v == 6 {
                NoteName { letter: NoteLetter::F, accidental: 1 }
            } else if v == 7 {
                NoteName { letter: NoteLetter::G, accidental: 0 }
            } else if v == 8 {
                NoteName { letter: NoteLetter::G, accidental: 1 }
            } else if v == 9 {
                NoteName { letter: NoteLetter::A, accidental: 0 }
            } else if v == 10 {
                NoteName { letter: NoteLetter::A, accidental: 1 }
            } else {
                NoteName { letter: NoteLetter::B, accidental: 0 }
            }
        }
    }

    /// Appends the text of this note (`C`, `F#`, `Bbb`) to `out`.
    pub fn push_text(self, out: &mut Vec<char>)
        ensures
            final(out)@ == old(out)@ + note_text(self),
    {
        out.push(self.letter.char());
        push_accidentals(out, self.accidental);
        assert(final(out)@ =~= old(out)@ + note_text(self));
    }

    /// The text of this note, such as `C`, `F#`, or `Bbb`.
    pub fn to_string(&self) -> (s: String)
        ensures
            s@ == note_text(*self),
    {
        let mut out: Vec<char> = Vec::new();
        self.push_text(&mut out);
        chars_to_string(&out)
    }

    /// Same letter and accidental.
    pub fn same(self, other: NoteName) -> (r: bool)
        ensures
            r == (self == other),
    {
        self.letter == other.letter && self.accidental == other.accidental
    }
}

impl Default for NoteName {
    fn default() -> (n: Self)
        ensures
            n == (NoteName { letter: NoteLetter::C, accidental: 0 }),
    {
        NoteName { letter: NoteLetter::C, accidental: 0 }
    }
}

/// The note `letter` with `accidental`, for fixed tables.
pub(crate) fn note(letter: NoteLetter, accidental: i8) -> (n: NoteName)
    ensures
        n.letter == letter,
        n.accidental == accidental,
{
    NoteName { letter, accidental }
}

/// The notes of standard six-string guitar tuning, low to high.
/// The standard notes of an instrument, lowest string first.
pub open spec fn standard_notes_of(i: Instrument) -> Seq<NoteName> {
    match i {
        Instrument::Guitar => guitar_standard_notes(),
        Instrument::Guitar7 => guitar7_standard_notes(),
        Instrument::Guitar8 => guitar8_standard_notes(),
        Instrument::Ukulele => ukulele_standard_notes(),
    }
}

pub open spec fn guitar_standard_notes() -> Seq<NoteName> {
    seq![
        NoteName { letter: NoteLetter::E, accidental: 0 },
        NoteName { letter: NoteLetter::A, accidental: 0 },
        NoteName { letter: NoteLetter::D, accidental: 0 },
        NoteName { letter: NoteLetter::G, accidental: 0 },
        NoteName { letter: NoteLetter::B, accidental: 0 },
        NoteName { letter: NoteLetter::E, accidental: 0 },
    ]
}

/// The notes of standard seven-string guitar tuning.
pub open spec fn guitar7_standard_notes() -> Seq<NoteName> {
    seq![
        NoteName { letter: NoteLetter::B, accidental: 0 },
        NoteName { letter: NoteLetter::E, accidental: 0 },
        NoteName { letter: NoteLetter::A, accidental: 0 },
        NoteName { letter: NoteLetter::D, accidental: 0 },
        NoteName { letter: NoteLetter::G, accidental: 0 },
        NoteName { letter: NoteLetter::B, accidental: 0 },
        NoteName { letter: NoteLetter::E, accidental: 0 },
    ]
}

/// The notes of standard eight-string guitar tuning.
pub open spec fn guitar8_standard_notes() -> Seq<NoteName> {
    seq![
        NoteName { letter: NoteLetter::F, accidental: 1 },
        NoteName { letter: NoteLetter::B, accidental: 0 },
        NoteName { letter: NoteLetter::E, accidental: 0 },
        NoteName { letter: NoteLetter::A, accidental: 0 },
        NoteName { letter: NoteLetter::D, accidental: 0 },
        NoteName { letter: NoteLetter::G, accidental: 0 },
        NoteName { letter: NoteLetter::B, accidental: 0 },
        NoteName { letter: NoteLetter::E, accidental: 0 },
    ]
}

/// The notes of standard ukulele tuning.
pub open spec fn ukulele_standard_notes() -> Seq<NoteName> {
    seq![
        NoteName { letter: NoteLetter::G, accidental: 0 },
        NoteName { letter: NoteLetter::C, accidental: 0 },
        NoteName { letter: NoteLetter::E, accidental: 0 },
        NoteName { letter: NoteLetter::A, accidental: 0 },
    ]
}

/// Standard six-string guitar tuning, low to high: E A D G B E.
pub fn standard_tuning_notes() -> (r: [NoteName; 6])
    ensures
        forall|i: int| 0 <= i < 6 ==> -2 <= #[trigger] r@[i].accidental <= 2,
        r@ == guitar_standard_notes(),
{
    [
        note(NoteLetter::E, 0),
        note(NoteLetter::A, 0),
        note(NoteLetter::D, 0),
        note(NoteLetter::G, 0),
        note(NoteLetter::B, 0),
        note(NoteLetter::E, 0),
    ]
}

/// Standard seven-string guitar tuning: B E A D G B E.
pub fn standard_7_string_tuning_notes() -> (r: [NoteName; 7])
    ensures
        forall|i: int| 0 <= i < 7 ==> -2 <= #[trigger] r@[i].accidental <= 2,
        r@ == guitar7_standard_notes(),
{
    [
        note(NoteLetter::B, 0),
        note(NoteLetter::E, 0),
        note(NoteLetter::A, 0),
        note(NoteLetter::D, 0),
        note(NoteLetter::G, 0),
        note(NoteLetter::B, 0),
        note(NoteLetter::E, 0),
    ]
}

/// Standard eight-string guitar tuning: F# B E A D G B E.
pub fn standard_8_string_tuning_notes() -> (r: [NoteName; 8])
    ensures
        forall|i: int| 0 <= i < 8 ==> -2 <= #[trigger] r@[i].accidental <= 2,
        r@ == guitar8_standard_notes(),
{
    [
        note(NoteLetter::F, 1),
        note(NoteLetter::B, 0),
        note(NoteLetter::E, 0),
        note(NoteLetter::A, 0),
        note(NoteLetter::D, 0),
        note(NoteLetter::G, 0),
        note(NoteLetter::B, 0),
        note(NoteLetter::E, 0),
    ]
}

/// Standard ukulele tuning: G C E A.
pub fn standard_ukulele_tuning_notes() -> (r: [NoteName; 4])
    ensures
        forall|i: int| 0 <= i < 4 ==> -2 <= #[trigger] r@[i].accidental <= 2,
        r@ == ukulele_standard_notes(),
{
    [note(NoteLetter::G, 0), note(NoteLetter::C, 0), note(NoteLetter::E, 0), note(NoteLetter::A, 0)]
}

/// A supported fretted instrument.
#[derive(Copy, Clone, Debug, Eq, PartialEq, Structural, Hash)]
pub enum Instrument {
    Guitar,
    Guitar7,
    Guitar8,
    Ukulele,
}

/// Strings of `instrument`.
pub open spec fn instrument_strings(instrument: Instrument) -> nat {
    match instrument {
        Instrument::Guitar => 6,
        Instrument::Guitar7 => 7,
        Instrument::Guitar8 => 8,
        Instrument::Ukulele => 4,
    }
}

/// The string counts the engine supports: 4, 6, 7 and 8.
pub open spec fn supported_count(count: int) -> bool {
    count == 4 || count == 6 || count == 7 || count == 8
}

/// The instrument that a supported string count implies.
pub open spec fn instrument_for_count(count: int) -> Instrument {
    if count == 4 {
        Instrument::Ukulele
    } else if count == 7 {
        Instrument::Guitar7
    } else if count == 8 {
        Instrument::Guitar8
    } else {
        Instrument::Guitar
    }
}

/// `s` with every ASCII capital made lower case.
pub open spec fn lowered(s: Seq<char>) -> Seq<char> {
    s.map_values(|c: char| lower(c))
}

/// The instrument that a lower-case name or alias stands for.
pub open spec fn instrument_named(name: Seq<char>) -> Option<Instrument> {
    if name == "guitar"@ || name == "g"@ {
        Some(Instrument::Guitar)
    } else if name == "guitar7"@ || name == "g7"@ || name == "7"@ || name == "7string"@ || name
        == "7-string"@ || name == "7-string-guitar"@ || name == "seven-string"@ || name
        == "seven-string-guitar"@ {
        Some(Instrument::Guitar7)
    } else if name == "guitar8"@ || name == "g8"@ || name == "8"@ || name == "8string"@ || name
        == "8-string"@ || name == "8-string-guitar"@ || name == "eight-string"@ || name
        == "eight-string-guitar"@ {
        Some(Instrument::Guitar8)
    } else if name == "ukulele"@ || name == "uke"@ || name == "u"@ {
        Some(Instrument::Ukulele)
    } else {
        None
    }
}

/// Name `w` writes the count `digit`, or starts with the count's `word`.
pub open spec fn names_count(w: Seq<char>, digit: char, word: Seq<char>) -> bool {
    w.contains(digit) || (w.len() >= word.len() && w.subrange(0, word.len() as int) == word)
}

/// The instrument a name stands for is the one with the string count the
/// name writes: a 7 or "seven" names the seven-string guitar, an 8 or
/// "eight" the eight-string guitar, a name beginning with `u` the ukulele,
/// and any other name the six-string guitar.
pub proof fn lemma_instrument_name_counts(w: Seq<char>)
    ensures
        instrument_named(w) matches Some(i) ==> (names_count(w, '7', "seven"@) <==> instrument_strings(i) == 7),
        instrument_named(w) matches Some(i) ==> (names_count(w, '8', "eight"@) <==> instrument_strings(i) == 8),
        instrument_named(w) matches Some(i) ==> (w[0] == 'u' <==> i == Instrument::Ukulele),
{
    reveal_strlit("seven");
    reveal_strlit("eight");
    reveal_strlit("guitar");
    reveal_strlit("g");
    reveal_strlit("guitar7");
    reveal_strlit("g7");
    reveal_strlit("7");
    reveal_strlit("7string");
    reveal_strlit("7-string");
    reveal_strlit("7-string-guitar");
    reveal_strlit("seven-string");
    reveal_strlit("seven-string-guitar");
    reveal_strlit("guitar8");
    reveal_strlit("g8");
    reveal_strlit("8");
    reveal_strlit("8string");
    reveal_strlit("8-string");
    reveal_strlit("8-string-guitar");
    reveal_strlit("eight-string");
    reveal_strlit("eight-string-guitar");
    reveal_strlit("ukulele");
    reveal_strlit("uke");
    reveal_strlit("u");
    if let Some(i) = instrument_named(w) {
        lemma_name_count(w, '7', "seven"@);
        lemma_name_count(w, '8', "eight"@);
        if w == "guitar"@ {
            assert(w =~= seq!['g', 'u', 'i', 't', 'a', 'r']);
            assert(!w.contains('7'));
            assert(!w.contains('8'));
            assert(w[0] != "seven"@[0]);
            assert(w[0] != "eight"@[0]);
        }
        if w == "g"@ {
            assert(w =~= seq!['g']);
            assert(!w.contains('7'));
            assert(!w.contains('8'));
        }
        if w == "guitar7"@ {
            assert(w =~= seq!['g', 'u', 'i', 't', 'a', 'r', '7']);
            assert(w[6] == '7');
            assert(!w.contains('8'));
            assert(w[0] != "seven"@[0]);
            assert(w[0] != "eight"@[0]);
        }
        if w == "g7"@ {
            assert(w =~= seq!['g', '7']);
            assert(w[1] == '7');
            assert(!w.contains('8'));
        }
        if w == "7"@ {
            assert(w =~= seq!['7']);
            assert(w[0] == '7');
            assert(!w.contains('8'));
        }
        if w == "7string"@ {
            assert(w =~= seq!['7', 's', 't', 'r', 'i', 'n', 'g']);
            assert(w[0] == '7');
            assert(!w.contains('8'));
            assert(w[0] != "seven"@[0]);
            assert(w[0] != "eight"@[0]);
        }
        if w == "7-string"@ {
            assert(w =~= seq!['7', '-', 's', 't', 'r', 'i', 'n', 'g']);
            assert(w[0] == '7');
            assert(!w.contains('8'));
            assert(w[0] != "seven"@[0]);
            assert(w[0] != "eight"@[0]);
        }
        if w == "7-string-guitar"@ {
            assert(w =~= seq!['7', '-', 's', 't', 'r', 'i', 'n', 'g', '-', 'g', 'u', 'i', 't', 'a', 'r']);
            assert(w[0] == '7');
            assert(!w.contains('8'));
            assert(w[0] != "seven"@[0]);
            assert(w[0] != "eight"@[0]);
        }
        if w == "seven-string"@ {
            assert(w =~= seq!['s', 'e', 'v', 'e', 'n', '-', 's', 't', 'r', 'i', 'n', 'g']);
            assert(!w.contains('7'));
            assert(!w.contains('8'));
            assert(forall|k: int| 0 <= k < 5 ==> #[trigger] w[k] == "seven"@[k]);
            assert(w[0] != "eight"@[0]);
        }
        if w == "seven-string-guitar"@ {
            assert(w =~= seq!['s', 'e', 'v', 'e', 'n', '-', 's', 't', 'r', 'i', 'n', 'g', '-', 'g', 'u', 'i', 't', 'a', 'r']);
            assert(!w.contains('7'));
            assert(!w.contains('8'));
            assert(forall|k: int| 0 <= k < 5 ==> #[trigger] w[k] == "seven"@[k]);
            assert(w[0] != "eight"@[0]);
        }
        if w == "guitar8"@ {
            assert(w =~= seq!['g', 'u', 'i', 't', 'a', 'r', '8']);
            assert(!w.contains('7'));
            assert(w[6] == '8');
            assert(w[0] != "seven"@[0]);
            assert(w[0] != "eight"@[0]);
        }
        if w == "g8"@ {
            assert(w =~= seq!['g', '8']);
            assert(!w.contains('7'));
            assert(w[1] == '8');
        }
        if w == "8"@ {
            assert(w =~= seq!['8']);
            assert(!w.contains('7'));
            assert(w[0] == '8');
        }
        if w == "8string"@ {
            assert(w =~= seq!['8', 's', 't', 'r', 'i', 'n', 'g']);
            assert(!w.contains('7'));
            assert(w[0] == '8');
            assert(w[0] != "seven"@[0]);
            assert(w[0] != "eight"@[0]);
        }
        if w == "8-string"@ {
            assert(w =~= seq!['8', '-', 's', 't', 'r', 'i', 'n', 'g']);
            assert(!w.contains('7'));
            assert(w[0] == '8');
            assert(w[0] != "seven"@[0]);
            assert(w[0] != "eight"@[0]);
        }
        if w == "8-string-guitar"@ {
            assert(w =~= seq!['8', '-', 's', 't', 'r', 'i', 'n', 'g', '-', 'g', 'u', 'i', 't', 'a', 'r']);
            assert(!w.contains('7'));
            assert(w[0] == '8');
            assert(w[0] != "seven"@[0]);
            assert(w[0] != "eight"@[0]);
        }
        if w == "eight-string"@ {
            assert(w =~= seq!['e', 'i', 'g', 'h', 't', '-', 's', 't', 'r', 'i', 'n', 'g']);
            assert(!w.contains('7'));
            assert(!w.contains('8'));
            assert(w[0] != "seven"@[0]);
            assert(forall|k: int| 0 <= k < 5 ==> #[trigger] w[k] == "eight"@[k]);
        }
        if w == "eight-string-guitar"@ {
            assert(w =~= seq!['e', 'i', 'g', 'h', 't', '-', 's', 't', 'r', 'i', 'n', 'g', '-', 'g', 'u', 'i', 't', 'a', 'r']);
            assert(!w.contains('7'));
            assert(!w.contains('8'));
            assert(w[0] != "seven"@[0]);
            assert(forall|k: int| 0 <= k < 5 ==> #[trigger] w[k] == "eight"@[k]);
        }
        if w == "ukulele"@ {
            assert(w =~= seq!['u', 'k', 'u', 'l', 'e', 'l', 'e']);
            assert(!w.contains('7'));
            assert(!w.contains('8'));
            assert(w[0] != "seven"@[0]);
            assert(w[0] != "eight"@[0]);
        }
        if w == "uke"@ {
            assert(w =~= seq!['u', 'k', 'e']);
            assert(!w.contains('7'));
            assert(!w.contains('8'));
        }
        if w == "u"@ {
            assert(w =~= seq!['u']);
            assert(!w.contains('7'));
            assert(!w.contains('8'));
        }
    }
}

/// An instrument's printed name reads back as the instrument.
pub proof fn lemma_instrument_name_reads_back(i: Instrument)
    ensures
        instrument_named(instrument_name(i)) == Some(i),
{
    reveal_strlit("guitar");
    reveal_strlit("g");
    reveal_strlit("guitar7");
    reveal_strlit("guitar8");
    reveal_strlit("ukulele");
    reveal_strlit("g7");
    reveal_strlit("7");
    reveal_strlit("7string");
    reveal_strlit("7-string");
    reveal_strlit("7-string-guitar");
    reveal_strlit("seven-string");
    reveal_strlit("seven-string-guitar");
    reveal_strlit("g8");
    reveal_strlit("8");
    reveal_strlit("8string");
    reveal_strlit("8-string");
    reveal_strlit("8-string-guitar");
    reveal_strlit("eight-string");
    reveal_strlit("eight-string-guitar");
    reveal_strlit("uke");
    reveal_strlit("u");
    assert("guitar"@ =~= seq!['g', 'u', 'i', 't', 'a', 'r']);
    assert("g"@ =~= seq!['g']);
    assert("guitar7"@ =~= seq!['g', 'u', 'i', 't', 'a', 'r', '7']);
    assert("g7"@ =~= seq!['g', '7']);
    assert("7"@ =~= seq!['7']);
    assert("7string"@ =~= seq!['7', 's', 't', 'r', 'i', 'n', 'g']);
    assert("7-string"@ =~= seq!['7', '-', 's', 't', 'r', 'i', 'n', 'g']);
    assert("7-string-guitar"@ =~= seq!['7', '-', 's', 't', 'r', 'i', 'n', 'g', '-', 'g', 'u', 'i', 't', 'a', 'r']);
    assert("seven-string"@ =~= seq!['s', 'e', 'v', 'e', 'n', '-', 's', 't', 'r', 'i', 'n', 'g']);
    assert("seven-string-guitar"@ =~= seq!['s', 'e', 'v', 'e', 'n', '-', 's', 't', 'r', 'i', 'n', 'g', '-', 'g', 'u', 'i', 't', 'a', 'r']);
    assert("guitar8"@ =~= seq!['g', 'u', 'i', 't', 'a', 'r', '8']);
    assert("g8"@ =~= seq!['g', '8']);
    assert("8"@ =~= seq!['8']);
    assert("8string"@ =~= seq!['8', 's', 't', 'r', 'i', 'n', 'g']);
    assert("8-string"@ =~= seq!['8', '-', 's', 't', 'r', 'i', 'n', 'g']);
    assert("8-string-guitar"@ =~= seq!['8', '-', 's', 't', 'r', 'i', 'n', 'g', '-', 'g', 'u', 'i', 't', 'a', 'r']);
    assert("eight-string"@ =~= seq!['e', 'i', 'g', 'h', 't', '-', 's', 't', 'r', 'i', 'n', 'g']);
    assert("eight-string-guitar"@ =~= seq!['e', 'i', 'g', 'h', 't', '-', 's', 't', 'r', 'i', 'n', 'g', '-', 'g', 'u', 'i', 't', 'a', 'r']);
    assert("ukulele"@ =~= seq!['u', 'k', 'u', 'l', 'e', 'l', 'e']);
    assert("uke"@ =~= seq!['u', 'k', 'e']);
    assert("u"@ =~= seq!['u']);
    let w = instrument_name(i);
    match i {
        Instrument::Guitar => {
            assert(w == "guitar"@);
            assert(instrument_named(w) == Some(Instrument::Guitar));
        },
        Instrument::Guitar7 => {
            assert(w[6] != "guitar8"@[6] || w.len() != 7);
            assert(w == "guitar7"@);
            assert(w != "guitar"@ && w != "g"@);
            assert(instrument_named(w) == Some(Instrument::Guitar7));
        },
        Instrument::Guitar8 => {
            assert(w[6] != "guitar7"@[6]);
            assert(w[0] != "7string"@[0]);
            assert(w == "guitar8"@);
            assert(w != "guitar7"@);
            assert(w != "7string"@);
            assert(w != "guitar"@ && w != "g"@ && w != "g7"@ && w != "7"@ && w != "7-string"@);
            assert(instrument_named(w) == Some(Instrument::Guitar8));
        },
        Instrument::Ukulele => {
            assert(w[0] != "guitar7"@[0]);
            assert(w[0] != "7string"@[0]);
            assert(w[0] != "guitar8"@[0]);
            assert(w[0] != "8string"@[0]);
            assert(w == "ukulele"@);
            assert(instrument_named(w) == Some(Instrument::Ukulele));
        },
    }
}

/// A count mention in a name, read off its characters.
proof fn lemma_name_count(w: Seq<char>, digit: char, word: Seq<char>)
    ensures
        names_count(w, digit, word) == ((exists|k: int| 0 <= k < w.len() && w[k] == digit) || (w.len() >= word.len()
            && forall|k: int| 0 <= k < word.len() ==> #[trigger] w[k] == word[k])),
{
    if w.len() >= word.len() && forall|k: int| 0 <= k < word.len() ==> #[trigger] w[k] == word[k] {
        assert(w.subrange(0, word.len() as int) =~= word);
    }
    if w.len() >= word.len() && w.subrange(0, word.len() as int) == word {
        assert forall|k: int| 0 <= k < word.len() implies #[trigger] w[k] == word[k] by {
            assert(w.subrange(0, word.len() as int)[k] == w[k]);
        }
    }
}

/// The lower-case name of `instrument`.
pub open spec fn instrument_name(instrument: Instrument) -> Seq<char> {
    match instrument {
        Instrument::Guitar => "guitar"@,
        Instrument::Guitar7 => "guitar7"@,
        Instrument::Guitar8 => "guitar8"@,
        Instrument::Ukulele => "ukulele"@,
    }
}

impl Instrument {
    /// Parses an instrument name, ignoring case and surrounding whitespace.
    pub fn parse(input: &str) -> (r: Result<Self, ChordClawError>)
        ensures
            match r {
                Ok(i) => instrument_named(lowered(trimmed(input@))) == Some(i),
                Err(_) => instrument_named(lowered(trimmed(input@))) is None,
            },
            r matches Err(e) ==> e.spec_message() == "unsupported instrument '"@ + lowered(trimmed(input@))
                + "': expected guitar, guitar7, guitar8, or ukulele"@,
    {
        let raw = str_to_chars(input);
        let (start, end) = trim_bounds(raw.as_slice());
        let mut name: Vec<char> = Vec::new();
        let mut i = start;
        while i < end
            invariant
                start <= i <= end <= raw@.len(),
                name@ == raw@.subrange(start as int, i as int).map_values(|c: char| lower(c)),
            decreases end - i,
        {
            name.push(to_lower(raw[i]));
            proof {
                assert(raw@.subrange(start as int, i + 1) == raw@.subrange(start as int, i as int).push(
                    raw@[i as int],
                ));
            }
            i += 1;
        }
        let s = name.as_slice();
        let n = name.len();
        assert(s@.subrange(0, n as int) == s@);
        assert(s@ == lowered(trimmed(input@)));
        if range_equals(s, 0, n, "guitar") || range_equals(s, 0, n, "g") {
            return Ok(Instrument::Guitar);
        }
        if range_equals(s, 0, n, "guitar7") || range_equals(s, 0, n, "g7") || range_equals(s, 0, n, "7")
            || range_equals(s, 0, n, "7string") || range_equals(s, 0, n, "7-string")
            || range_equals(s, 0, n, "7-string-guitar") || range_equals(s, 0, n, "seven-string")
            || range_equals(s, 0, n, "seven-string-guitar") {
            return Ok(Instrument::Guitar7);
        }
        if range_equals(s, 0, n, "guitar8") || range_equals(s, 0, n, "g8") || range_equals(s, 0, n, "8")
            || range_equals(s, 0, n, "8string") || range_equals(s, 0, n, "8-string")
            || range_equals(s, 0, n, "8-string-guitar") || range_equals(s, 0, n, "eight-string")
            || range_equals(s, 0, n, "eight-string-guitar") {
            return Ok(Instrument::Guitar8);
        }
        if range_equals(s, 0, n, "ukulele") || range_equals(s, 0, n, "uke") || range_equals(s, 0, n, "u") {
            return Ok(Instrument::Ukulele);
        }
        let mut msg: Vec<char> = Vec::new();
        push_str(&mut msg, "unsupported instrument '");
        push_chars(&mut msg, s);
        push_str(&mut msg, "': expected guitar, guitar7, guitar8, or ukulele");
        Err(ChordClawError::from_chars(&msg))
    }

    /// The instrument for a supported string count.
    pub fn from_string_count(count: usize) -> (r: Result<Self, ChordClawError>)
        ensures
            r is Ok <==> supported_count(count as int),
            r matches Ok(i) ==> i == instrument_for_count(count as int) && instrument_strings(i)
                == count,
    {
        validate_exact_string_count(count)?;
        Ok(
            if count == UKULELE_STRING_COUNT {
                Instrument::Ukulele
            } else if count == GUITAR7_STRING_COUNT {
                Instrument::Guitar7
            } else if count == GUITAR8_STRING_COUNT {
                Instrument::Guitar8
            } else {
                Instrument::Guitar
            },
        )
    }

    /// Number of strings.
    pub fn string_count(self) -> (n: usize)
        ensures
            n == instrument_strings(self),
    {
        match self {
            Instrument::Guitar => GUITAR_STRING_COUNT,
            Instrument::Guitar7 => GUITAR7_STRING_COUNT,
            Instrument::Guitar8 => GUITAR8_STRING_COUNT,
            Instrument::Ukulele => UKULELE_STRING_COUNT,
        }
    }

    /// The standard tuning of this instrument.
    pub fn default_tuning(self) -> (t: Tuning)
        ensures
            t.spec_instrument() == self,
            t.spec_string_count() == instrument_strings(self),
            forall|i: int| 0 <= i < instrument_strings(self) ==> #[trigger] t.spec_note(i) == standard_notes_of(self)[i],
            self != Instrument::Ukulele ==> open_pitches_stacked(t),
            self == Instrument::Ukulele ==> open_pitches_reentrant(t),
    {
        match self {
            Instrument::Guitar => standard_tuning(),
            Instrument::Guitar7 => standard_7_string_tuning(),
            Instrument::Guitar8 => standard_8_string_tuning(),
            Instrument::Ukulele => standard_ukulele_tuning(),
        }
    }

    /// The lower-case name of this instrument.
    pub fn name(self) -> (s: &'static str)
        ensures
            s@ == instrument_name(self),
    {
        match self {
            Instrument::Guitar => "guitar",
            Instrument::Guitar7 => "guitar7",
            Instrument::Guitar8 => "guitar8",
            Instrument::Ukulele => "ukulele",
        }
    }
}

/// Highest absolute open-string pitch the engine handles.
pub open spec fn max_open_pitch() -> int {
    2000
}

/// Strings of an instrument, in string order, with their open pitches.
#[derive(Copy, Clone, Debug, Eq, PartialEq)]
pub struct Tuning {
    instrument: Instrument,
    notes: [NoteName; 8],
    open_pitches: [i16; 8],
    string_count: usize,
}

pub type GuitarTuning = Tuning;

pub type UkuleleTuning = Tuning;

impl Tuning {
    #[verifier::type_invariant]
    spec fn inv(self) -> bool {
        &&& supported_count(self.string_count as int)
        &&& instrument_strings(self.instrument) == self.string_count
        &&& forall|i: int| 0 <= i < 8 ==> 0 <= #[trigger] self.open_pitches@[i] <= max_open_pitch()
        &&& forall|i: int|
            0 <= i < self.string_count ==> pitch_mod(#[trigger] self.open_pitches@[i] as int) == note_pitch(
                self.notes@[i],
            )
    }

    pub closed spec fn spec_instrument(self) -> Instrument {
        self.instrument
    }

    pub closed spec fn spec_string_count(self) -> nat {
        self.string_count as nat
    }

    pub closed spec fn spec_open_pitch(self, string: int) -> int {
        self.open_pitches@[string] as int
    }

    pub closed spec fn spec_note(self, string: int) -> NoteName {
        self.notes@[string]
    }

    fn from_notes(instrument: Instrument, notes: [NoteName; 8], string_count: usize) -> (t: Self)
        requires
            supported_count(string_count as int),
            instrument_strings(instrument) == string_count,
        ensures
            t.spec_instrument() == instrument,
            t.spec_string_count() == string_count,
            forall|i: int| 0 <= i < string_count ==> #[trigger] t.spec_note(i) == notes@[i],
            instrument == Instrument::Ukulele && ukulele_reentrant(notes@) ==> open_pitches_reentrant(t),
            !(instrument == Instrument::Ukulele && ukulele_reentrant(notes@)) ==> open_pitches_stacked(t),
    {
        Tuning {
            instrument,
            notes,
            open_pitches: open_pitches_for(notes, string_count, instrument),
            string_count,
        }
    }

    /// A six-string guitar tuning.
    pub fn new(notes: [NoteName; 6]) -> (t: Self)
        ensures
            t.spec_instrument() == Instrument::Guitar,
            t.spec_string_count() == 6,
            forall|i: int| 0 <= i < 6 ==> #[trigger] t.spec_note(i) == notes@[i],
            open_pitches_stacked(t),
    {
        let mut out = [note(NoteLetter::C, 0); 8];
        let mut idx: usize = 0;
        while idx < 6
            invariant
                0 <= idx <= 6,
                forall|j: int| 0 <= j < idx ==> #[trigger] out@[j] == notes@[j],
            decreases 6 - idx,
        {
            out[idx] = notes[idx];
            idx += 1;
        }
        Self::from_notes(Instrument::Guitar, out, 6)
    }

    /// A four-string ukulele tuning.
    pub fn new_ukulele(notes: [NoteName; 4]) -> (t: Self)
        ensures
            t.spec_instrument() == Instrument::Ukulele,
            t.spec_string_count() == 4,
            forall|i: int| 0 <= i < 4 ==> #[trigger] t.spec_note(i) == notes@[i],
            ukulele_reentrant(notes@) ==> open_pitches_reentrant(t),
            !ukulele_reentrant(notes@) ==> open_pitches_stacked(t),
    {
        let mut out = [note(NoteLetter::C, 0); 8];
        let mut idx: usize = 0;
        while idx < 4
            invariant
                0 <= idx <= 4,
                forall|j: int| 0 <= j < idx ==> #[trigger] out@[j] == notes@[j],
            decreases 4 - idx,
        {
            out[idx] = notes[idx];
            idx += 1;
        }
        Self::from_notes(Instrument::Ukulele, out, 4)
    }

    /// A seven-string guitar tuning.
    pub fn new_guitar7(notes: [NoteName; 7]) -> (t: Self)
        ensures
            t.spec_instrument() == Instrument::Guitar7,
            t.spec_string_count() == 7,
            forall|i: int| 0 <= i < 7 ==> #[trigger] t.spec_note(i) == notes@[i],
            open_pitches_stacked(t),
    {
        let mut out = [note(NoteLetter::C, 0); 8];
        let mut idx: usize = 0;
        while idx < 7
            invariant
                0 <= idx <= 7,
                forall|j: int| 0 <= j < idx ==> #[trigger] out@[j] == notes@[j],
            decreases 7 - idx,
        {
            out[idx] = notes[idx];
            idx += 1;
        }
        Self::from_notes(Instrument::Guitar7, out, 7)
    }

    /// An eight-string guitar tuning.
    pub fn new_guitar8(notes: [NoteName; 8]) -> (t: Self)
        ensures
            t.spec_instrument() == Instrument::Guitar8,
            t.spec_string_count() == 8,
            forall|i: int| 0 <= i < 8 ==> #[trigger] t.spec_note(i) == notes@[i],
            open_pitches_stacked(t),
    {
        Self::from_notes(Instrument::Guitar8, notes, 8)
    }

    fn from_parsed(
        parsed: ParsedTuning,
        instrument: Option<Instrument>,
        Ghost(list): Ghost<Seq<(NoteName, Option<int>)>>,
    ) -> (r: Result<Self, ChordClawError>)
        requires
            parsed.wf(),
            parsed_holds(parsed, list),
            octaves_consistent(list),
        ensures
            r matches Ok(t) ==> t.spec_string_count() == parsed.string_count,
            r matches Ok(t) ==> (instrument matches Some(i) ==> t.spec_instrument() == i),
            r matches Ok(t) ==> (instrument is None ==> t.spec_instrument() == instrument_for_count(
                parsed.string_count as int,
            )),
            r is Ok <==> (supported_count(parsed.string_count as int) && (instrument matches Some(i)
                ==> instrument_strings(i) == parsed.string_count)),
            r matches Ok(t) ==> tuning_holds(t, list),
            !supported_count(parsed.string_count as int) ==> (r matches Err(e) && e.spec_message()
                == "expected 4, 6, 7, or 8 tuning notes, got "@ + decimal(parsed.string_count as nat)),
    {
        let string_count = parsed.string_count;
        if !is_supported_string_count(string_count) {
            let mut msg: Vec<char> = Vec::new();
            push_str(&mut msg, "expected 4, 6, 7, or 8 tuning notes, got ");
            push_usize(&mut msg, string_count);
            return Err(ChordClawError::from_chars(&msg));
        }
        let instrument = match instrument {
            Some(i) => i,
            None => {
                if string_count == UKULELE_STRING_COUNT {
                    Instrument::Ukulele
                } else if string_count == GUITAR7_STRING_COUNT {
                    Instrument::Guitar7
                } else if string_count == GUITAR8_STRING_COUNT {
                    Instrument::Guitar8
                } else {
                    Instrument::Guitar
                }
            },
        };
        if instrument.string_count() != string_count {
            let mut msg: Vec<char> = Vec::new();
            push_str(&mut msg, "expected ");
            push_usize(&mut msg, instrument.string_count());
            push_str(&mut msg, " tuning notes for ");
            push_str(&mut msg, instrument.name());
            push_str(&mut msg, ", got ");
            push_usize(&mut msg, string_count);
            return Err(ChordClawError::from_chars(&msg));
        }
        let open_pitches = match parsed.open_pitches {
            Some(p) => p,
            None => open_pitches_for(parsed.notes, string_count, instrument),
        };
        let t = Tuning { instrument, notes: parsed.notes, open_pitches, string_count };
        proof {
            let names = list.map_values(|x: (NoteName, Option<int>)| x.0);
            assert forall|i: int| 0 <= i < string_count implies #[trigger] names[i] == parsed.notes@[i] by {}
            if string_count == 4 {
                assert(ukulele_reentrant(names) == ukulele_reentrant(parsed.notes@));
            }
            if parsed.open_pitches is Some && list.len() > 0 {
                assert(list[0].1 is Some);
            }
        }
        Ok(t)
    }

    /// Parses a tuning such as `DADGAD`, `GCEA`, `D,A,D,G,A,D`, or `G3,C4,E4,A4`.
    ///
    /// An empty input or `standard` gives standard guitar tuning.
    pub fn parse(input: &str) -> (r: Result<Self, ChordClawError>)
        ensures
            r matches Ok(t) ==> supported_count(t.spec_string_count() as int),
            ({
                let text = trimmed(normalized_glyphs(input@));
                if text.len() == 0 || lowered(text) == lowered("standard"@) {
                    r matches Ok(t) && t.spec_instrument() == Instrument::Guitar && t.spec_string_count()
                        == 6 && (forall|i: int| 0 <= i < 6 ==> #[trigger] t.spec_note(i)
                        == guitar_standard_notes()[i]) && open_pitches_stacked(t)
                } else {
                    match tuning_text_notes(text) {
                        None => r is Err,
                        Some(list) => (r is Ok <==> supported_count(list.len() as int)
                            && octaves_consistent(list)) && (r matches Ok(t) ==> tuning_holds(t, list)
                            && t.spec_instrument() == instrument_for_count(list.len() as int)) && (
                        !supported_count(list.len() as int) ==> (r matches Err(e)
                            && e.spec_message() == "expected 4, 6, 7, or 8 "@ + "tuning notes"@ + ", got "@
                            + decimal(list.len()))),
                    }
                }
            }),
    {
        let raw = str_to_chars(input);
        let normalized = normalize_chart_glyphs(&raw);
        let (start, end) = trim_bounds(normalized.as_slice());
        let ghost text = trimmed(normalized_glyphs(input@));
        assert(normalized@.subrange(start as int, end as int) == text);
        if start == end || range_equals_ignore_case(normalized.as_slice(), start, end, "standard") {
            return Ok(standard_tuning());
        }
        let separated = has_tuning_separators(normalized.as_slice(), start, end);
        proof {
            lemma_has_separator(normalized@, start as int, end as int, text);
        }
        let ghost list = tuning_text_notes(text);
        let parsed = if separated {
            parse_separated_tuning(normalized.as_slice(), start, end, None)?
        } else {
            parse_compact_tuning(normalized.as_slice(), start, end, None)?
        };
        Self::from_parsed(parsed, None, Ghost(list->0))
    }

    /// Parses a tuning for `instrument`, which fixes the string count.
    pub fn parse_for_instrument(input: &str, instrument: Instrument) -> (r: Result<
        Self,
        ChordClawError,
    >)
        ensures
            r matches Ok(t) ==> t.spec_instrument() == instrument,
            r matches Ok(t) ==> t.spec_string_count() == instrument_strings(instrument),
            ({
                let text = trimmed(normalized_glyphs(input@));
                if text.len() == 0 || lowered(text) == lowered("standard"@) {
                    r matches Ok(t) && (forall|i: int|
                        0 <= i < instrument_strings(instrument) ==> #[trigger] t.spec_note(i) == standard_notes_of(
                            instrument,
                        )[i]) && (instrument != Instrument::Ukulele ==> open_pitches_stacked(t)) && (instrument
                        == Instrument::Ukulele ==> open_pitches_reentrant(t))
                } else {
                    match tuning_text_notes(text) {
                        None => r is Err,
                        Some(list) => (r is Ok <==> list.len() == instrument_strings(instrument)
                            && octaves_consistent(list)) && (r matches Ok(t) ==> tuning_holds(t, list)) && (list.len()
                            != instrument_strings(instrument) ==> (r matches Err(e) && e.spec_message() == "expected "@
                            + decimal(instrument_strings(instrument) as nat) + seq![' '] + "tuning notes"@ + ", got "@
                            + decimal(list.len()))) && (list.len() == instrument_strings(instrument)
                            && !octaves_consistent(list) ==> (r matches Err(e) && e.spec_message()
                            == "invalid tuning: provide octaves for every note or for none"@)),
                    }
                }
            }),
    {
        let raw = str_to_chars(input);
        let normalized = normalize_chart_glyphs(&raw);
        let (start, end) = trim_bounds(normalized.as_slice());
        let ghost text = trimmed(normalized_glyphs(input@));
        assert(normalized@.subrange(start as int, end as int) == text);
        if start == end || range_equals_ignore_case(normalized.as_slice(), start, end, "standard") {
            return Ok(instrument.default_tuning());
        }
        let expected = instrument.string_count();
        let separated = has_tuning_separators(normalized.as_slice(), start, end);
        proof {
            lemma_has_separator(normalized@, start as int, end as int, text);
        }
        let ghost list = tuning_text_notes(text);
        let parsed = if separated {
            parse_separated_tuning(normalized.as_slice(), start, end, Some(expected))?
        } else {
            parse_compact_tuning(normalized.as_slice(), start, end, Some(expected))?
        };
        Self::from_parsed(parsed, Some(instrument), Ghost(list->0))
    }

    /// Number of strings.
    pub fn string_count(self) -> (n: usize)
        ensures
            n == self.spec_string_count(),
            supported_count(n as int),
            n <= 8,
            n == instrument_strings(self.spec_instrument()),
    {
        proof {
            use_type_invariant(self);
        }
        self.string_count
    }

    /// The instrument this tuning is for.
    pub fn instrument(self) -> (i: Instrument)
        ensures
            i == self.spec_instrument(),
            instrument_strings(i) == self.spec_string_count(),
    {
        proof {
            use_type_invariant(self);
        }
        self.instrument
    }

    /// Open-string notes, in string order.
    pub fn notes(&self) -> (v: Vec<NoteName>)
        ensures
            v@.len() == self.spec_string_count(),
            forall|i: int| 0 <= i < v@.len() ==> #[trigger] v@[i] == self.spec_note(i),
    {
        proof {
            use_type_invariant(self);
        }
        let mut v: Vec<NoteName> = Vec::new();
        let mut i: usize = 0;
        while i < self.string_count
            invariant
                0 <= i <= self.string_count <= 8,
                v@.len() == i,
                forall|j: int| 0 <= j < i ==> #[trigger] v@[j] == self.spec_note(j),
            decreases self.string_count - i,
        {
            v.push(self.notes[i]);
            i += 1;
        }
        v
    }

    /// The open note of `string`.
    pub fn note(self, string: usize) -> (n: NoteName)
        requires
            string < self.spec_string_count(),
        ensures
            n == self.spec_note(string as int),
    {
        proof {
            use_type_invariant(self);
        }
        self.notes[string]
    }

    /// Absolute pitch of `string` stopped at `fret`.
    pub fn absolute_pitch(self, string: usize, fret: u8) -> (p: i16)
        requires
            string < self.spec_string_count(),
            fret <= MAX_STANDARD_FRET,
        ensures
            p == self.spec_open_pitch(string as int) + fret,
            0 <= p <= max_open_pitch() + 30,
    {
        proof {
            use_type_invariant(self);
        }
        self.open_pitches[string] + fret as i16
    }

    /// Pitch class of `string` stopped at `fret`.
    pub fn pitch_at(self, string: usize, fret: u8) -> (p: PitchClass)
        requires
            string < self.spec_string_count(),
            fret <= MAX_STANDARD_FRET,
        ensures
            p.spec_value() == pitch_mod(self.spec_open_pitch(string as int) + fret),
            p.spec_value() == pitch_mod(note_pitch(self.spec_note(string as int)) + fret),
    {
        proof {
            use_type_invariant(self);
            lemma_transpose_compose(self.spec_open_pitch(string as int), 0, fret as int);
        }
        PitchClass::new(self.absolute_pitch(string, fret))
    }

    /// Whether the lowest string is also the first string, so that a root
    /// bass can be asked of voicings.
    pub fn prefers_root_bass(self) -> (b: bool)
        ensures
            b == !(self.spec_string_count() > 1 && self.spec_open_pitch(0) > self.spec_open_pitch(
                1,
            )),
    {
        proof {
            use_type_invariant(self);
        }
        !(self.string_count > 1 && self.open_pitches[0] > self.open_pitches[1])
    }

    /// The text of the first `n` open-string notes, separated by spaces.
    pub open spec fn notes_text(self, n: nat) -> Seq<char>
        decreases n,
    {
        if n == 0 {
            Seq::empty()
        } else if n == 1 {
            note_text(self.spec_note(0))
        } else {
            self.notes_text((n - 1) as nat).push(' ') + note_text(self.spec_note(n - 1))
        }
    }

    /// Notes separated by spaces, such as `E A D G B E`.
    pub fn to_string(&self) -> (s: String)
        ensures
            s@ == self.notes_text(self.spec_string_count()),
    {
        let notes = self.notes();
        let mut out: Vec<char> = Vec::new();
        let mut i: usize = 0;
        while i < notes.len()
            invariant
                0 <= i <= notes@.len(),
                notes@.len() == self.spec_string_count(),
                forall|k: int| 0 <= k < notes@.len() ==> #[trigger] notes@[k] == self.spec_note(k),
                out@ == self.notes_text(i as nat),
            decreases notes.len() - i,
        {
            if i > 0 {
                out.push(' ');
            }
            notes[i].push_text(&mut out);
            i += 1;
        }
        chars_to_string(&out)
    }
}

impl Default for Tuning {
    fn default() -> (t: Self)
        ensures
            t.spec_instrument() == Instrument::Guitar,
            t.spec_string_count() == 6,
    {
        standard_tuning()
    }
}

/// Standard guitar tuning E A D G B E.
pub fn standard_tuning() -> (t: Tuning)
    ensures
        t.spec_instrument() == Instrument::Guitar,
        t.spec_string_count() == 6,
        forall|i: int| 0 <= i < 6 ==> #[trigger] t.spec_note(i) == guitar_standard_notes()[i],
        open_pitches_stacked(t),
{
    Tuning::new(standard_tuning_notes())
}

/// Standard seven-string guitar tuning B E A D G B E.
pub fn standard_7_string_tuning() -> (t: Tuning)
    ensures
        t.spec_instrument() == Instrument::Guitar7,
        t.spec_string_count() == 7,
        forall|i: int| 0 <= i < 7 ==> #[trigger] t.spec_note(i) == guitar7_standard_notes()[i],
        open_pitches_stacked(t),
{
    Tuning::new_guitar7(standard_7_string_tuning_notes())
}

/// Standard eight-string guitar tuning F# B E A D G B E.
pub fn standard_8_string_tuning() -> (t: Tuning)
    ensures
        t.spec_instrument() == Instrument::Guitar8,
        t.spec_string_count() == 8,
        forall|i: int| 0 <= i < 8 ==> #[trigger] t.spec_note(i) == guitar8_standard_notes()[i],
        open_pitches_stacked(t),
{
    Tuning::new_guitar8(standard_8_string_tuning_notes())
}

/// Standard re-entrant ukulele tuning G C E A with a high G.
pub fn standard_ukulele_tuning() -> (t: Tuning)
    ensures
        t.spec_instrument() == Instrument::Ukulele,
        t.spec_string_count() == 4,
        forall|i: int| 0 <= i < 4 ==> #[trigger] t.spec_note(i) == ukulele_standard_notes()[i],
        open_pitches_reentrant(t),
{
    Tuning::new_ukulele(standard_ukulele_tuning_notes())
}

fn pc_value(n: NoteName) -> (v: i16)
    ensures
        v == note_pitch(n),
        0 <= v < 12,
{
    n.pitch_class().value() as i16
}

fn open_pitches_for(notes: [NoteName; 8], string_count: usize, instrument: Instrument) -> (r: [i16;
    8])
    requires
        string_count <= 8,
    ensures
        forall|i: int| 0 <= i < 8 ==> 0 <= #[trigger] r@[i] <= 100,
        forall|i: int| 0 <= i < string_count ==> pitch_mod(#[trigger] r@[i] as int) == note_pitch(notes@[i]),
        instrument == Instrument::Ukulele && string_count == 4 && ukulele_reentrant(notes@) ==> r@[1]
            < r@[2] < r@[0] < r@[3],
        !(instrument == Instrument::Ukulele && string_count == 4 && ukulele_reentrant(notes@)) ==> forall|
            i: int,
        | 0 < i < string_count ==> r@[i - 1] < #[trigger] r@[i],
        !(instrument == Instrument::Ukulele && string_count == 4 && ukulele_reentrant(notes@)) ==> (
        string_count > 0 ==> r@[0] == note_pitch(notes@[0])),
        !(instrument == Instrument::Ukulele && string_count == 4 && ukulele_reentrant(notes@)) ==> forall|
            i: int,
        | 0 < i < string_count ==> #[trigger] r@[i] <= r@[i - 1] + 12,
{
    if instrument == Instrument::Ukulele && string_count == UKULELE_STRING_COUNT
        && is_reentrant_ukulele_pattern(notes) {
        reentrant_ukulele_open_pitches(notes)
    } else {
        ascending_open_pitches(notes, string_count)
    }
}

/// Open pitches rising string by string from each note's pitch class.
fn ascending_open_pitches(notes: [NoteName; 8], string_count: usize) -> (r: [i16; 8])
    requires
        string_count <= 8,
    ensures
        forall|i: int| 0 <= i < 8 ==> 0 <= #[trigger] r@[i] <= 100,
        forall|i: int| 0 < i < string_count ==> r@[i - 1] < #[trigger] r@[i],
        forall|i: int| 0 <= i < string_count ==> pitch_mod(#[trigger] r@[i] as int) == note_pitch(notes@[i]),
        string_count > 0 ==> r@[0] == note_pitch(notes@[0]),
        forall|i: int| 0 < i < string_count ==> #[trigger] r@[i] <= r@[i - 1] + 12,
{
    let mut out = [0i16; 8];
    let mut idx: usize = 0;
    let mut previous: i16 = -1;
    while idx < string_count
        invariant
            0 <= idx <= string_count <= 8,
            -1 <= previous <= 12 * idx,
            idx > 0 ==> previous == out@[idx - 1],
            forall|i: int| 0 <= i < 8 ==> 0 <= #[trigger] out@[i] <= 100,
            forall|i: int| 0 < i < idx ==> out@[i - 1] < #[trigger] out@[i],
            forall|i: int| 0 <= i < idx ==> pitch_mod(#[trigger] out@[i] as int) == note_pitch(notes@[i]),
            forall|i: int| 0 <= i < idx ==> #[trigger] out@[i] <= 12 * idx,
            idx > 0 ==> out@[0] == note_pitch(notes@[0]),
            forall|i: int| 0 < i < idx ==> #[trigger] out@[i] <= out@[i - 1] + 12,
            idx == 0 ==> previous == -1,
        decreases string_count - idx,
    {
        let base = pc_value(notes[idx]);
        let pitch = lift_above(base, previous);
        proof {
            if idx == 0 {
                assert(pitch == base) by {
                    assert(pitch_mod(pitch as int) == pitch as int);
                }
            }
        }
        out[idx] = pitch;
        previous = pitch;
        idx += 1;
    }
    out
}

/// `pitch` raised by octaves until it is above `floor`.
fn lift_above(pitch: i16, floor: i16) -> (r: i16)
    requires
        0 <= pitch < 12,
        -1 <= floor <= 96,
    ensures
        floor < r <= floor + 12,
        r >= 0,
        pitch_mod(r as int) == pitch,
{
    let mut p = pitch;
    while p <= floor
        invariant
            0 <= pitch <= p,
            -1 <= floor <= 96,
            p <= floor + 12,
            pitch_mod(p as int) == pitch,
        decreases floor + 12 - p,
    {
        assert(pitch_mod(p + 12) == pitch_mod(p as int)) by (nonlinear_arith);
        p += 12;
    }
    p
}

fn reentrant_ukulele_open_pitches(notes: [NoteName; 8]) -> (r: [i16; 8])
    ensures
        forall|i: int| 0 <= i < 8 ==> 0 <= #[trigger] r@[i] <= 100,
        forall|i: int| 0 <= i < 4 ==> pitch_mod(#[trigger] r@[i] as int) == note_pitch(notes@[i]),
        r@[1] < r@[2] < r@[0] < r@[3],
{
    let second = pc_value(notes[1]);
    let third = lift_above(pc_value(notes[2]), second);
    let first = lift_above(pc_value(notes[0]), third);
    let fourth = lift_above(pc_value(notes[3]), first);
    [first, second, third, fourth, 0, 0, 0, 0]
}

/// The four notes follow the interval pattern of G C E A, which is read as
/// re-entrant; baritone D G B E, which shares it, stays linear.
pub open spec fn ukulele_reentrant(notes: Seq<NoteName>) -> bool {
    let first = note_pitch(notes[0]);
    &&& first != 2
    &&& note_pitch(notes[1]) == pitch_mod(first + 5)
    &&& note_pitch(notes[2]) == pitch_mod(first + 9)
    &&& note_pitch(notes[3]) == pitch_mod(first + 2)
}

/// Each open string sounds above the one before it.
/// Each open pitch is the lowest above the one before it that has its
/// note's pitch class, the first the pitch class itself: rising open
/// pitches fixed by the notes alone.
pub open spec fn open_pitches_stacked(t: Tuning) -> bool {
    &&& open_pitches_rise(t)
    &&& forall|i: int| 0 <= i < t.spec_string_count() ==> pitch_mod(#[trigger] t.spec_open_pitch(i)) == note_pitch(
        t.spec_note(i),
    )
    &&& t.spec_string_count() > 0 ==> t.spec_open_pitch(0) == note_pitch(t.spec_note(0))
    &&& forall|i: int| 0 < i < t.spec_string_count() ==> #[trigger] t.spec_open_pitch(i) <= t.spec_open_pitch(i - 1) + 12
}

/// Two stacked tunings with the same notes have the same open pitches.
pub proof fn lemma_stacked_tunings_agree(a: Tuning, b: Tuning, i: int)
    requires
        open_pitches_stacked(a),
        open_pitches_stacked(b),
        a.spec_string_count() == b.spec_string_count(),
        forall|k: int| 0 <= k < a.spec_string_count() ==> #[trigger] a.spec_note(k) == b.spec_note(k),
        0 <= i < a.spec_string_count(),
    ensures
        a.spec_open_pitch(i) == b.spec_open_pitch(i),
    decreases i,
{
    if i > 0 {
        lemma_stacked_tunings_agree(a, b, i - 1);
        let x = a.spec_open_pitch(i);
        let y = b.spec_open_pitch(i);
        let f = a.spec_open_pitch(i - 1);
        assert(pitch_mod(x) == pitch_mod(y));
        assert(f < x <= f + 12 && f < y <= f + 12);
        assert(x == y) by {
            lemma_pitch_mod_window(x, y, f);
        }
    }
}

/// Two numbers in one window of twelve with the same pitch class are equal.
proof fn lemma_pitch_mod_window(x: int, y: int, f: int)
    requires
        f < x <= f + 12,
        f < y <= f + 12,
        pitch_mod(x) == pitch_mod(y),
    ensures
        x == y,
{
    assert(x == y) by (nonlinear_arith)
        requires
            f < x <= f + 12,
            f < y <= f + 12,
            ((x % 12) + 12) % 12 == ((y % 12) + 12) % 12,
    ;
}

pub open spec fn open_pitches_rise(t: Tuning) -> bool {
    forall|i: int| 0 < i < t.spec_string_count() ==> t.spec_open_pitch(i - 1) < #[trigger] t.spec_open_pitch(i)
}

/// The first string of a four-string tuning sounds between the third and
/// the fourth: the re-entrant contour of a high-G ukulele.
pub open spec fn open_pitches_reentrant(t: Tuning) -> bool {
    t.spec_open_pitch(1) < t.spec_open_pitch(2) < t.spec_open_pitch(0) < t.spec_open_pitch(3)
}

/// Whether the four notes follow the interval pattern of G C E A, which is
/// read as re-entrant; baritone D G B E, which shares it, stays linear.
fn is_reentrant_ukulele_pattern(notes: [NoteName; 8]) -> (b: bool)
    ensures
        b == ukulele_reentrant(notes@),
{
    let first = notes[0].pitch_class();
    first.value() != 2 && notes[1].pitch_class().value() == first.transpose(5).value()
        && notes[2].pitch_class().value() == first.transpose(9).value()
        && notes[3].pitch_class().value() == first.transpose(2).value()
}

/// Separators between tuning notes: whitespace, `,`, `;`, `/`, `-`.
pub open spec fn is_tuning_separator(c: char) -> bool {
    is_space(c) || c == ',' || c == ';' || c == '/' || c == '-'
}

fn tuning_separator(c: char) -> (r: bool)
    ensures
        r == is_tuning_separator(c),
{
    is_whitespace(c) || c == ',' || c == ';' || c == '/' || c == '-'
}

fn has_tuning_separators(s: &[char], start: usize, end: usize) -> (r: bool)
    requires
        start <= end <= s@.len(),
    ensures
        r == exists|i: int| start <= i < end && is_tuning_separator(#[trigger] s@[i]),
{
    let mut i = start;
    while i < end
        invariant
            start <= i <= end <= s@.len(),
            forall|j: int| start <= j < i ==> !is_tuning_separator(#[trigger] s@[j]),
        decreases end - i,
    {
        if tuning_separator(s[i]) {
            return true;
        }
        i += 1;
    }
    false
}

/// The pieces of `s` between tuning separators, empty pieces left out.
pub open spec fn tuning_tokens(s: Seq<char>) -> Seq<Seq<char>>
    decreases s.len(),
{
    if s.len() == 0 {
        seq![]
    } else {
        let prev = tuning_tokens(s.drop_last());
        let c = s.last();
        if is_tuning_separator(c) {
            prev
        } else if s.len() >= 2 && !is_tuning_separator(s[s.len() - 2]) {
            prev.update(prev.len() - 1, prev.last().push(c))
        } else {
            prev.push(seq![c])
        }
    }
}

/// The tuning notes of `tokens`, when each token is one.
pub open spec fn token_notes(tokens: Seq<Seq<char>>) -> Option<Seq<(NoteName, Option<int>)>> {
    if forall|i: int| 0 <= i < tokens.len() ==> #[trigger] tuning_note(tokens[i]) is Some {
        Some(Seq::new(tokens.len(), |i: int| tuning_note(tokens[i])->0))
    } else {
        None
    }
}

/// Number of tuning notes that name an octave.
pub open spec fn count_octaves(list: Seq<(NoteName, Option<int>)>) -> nat
    decreases list.len(),
{
    if list.len() == 0 {
        0
    } else {
        count_octaves(list.drop_last()) + if list.last().1 is Some {
            1nat
        } else {
            0nat
        }
    }
}

/// Either every tuning note names an octave or none does.
pub open spec fn octaves_consistent(list: Seq<(NoteName, Option<int>)>) -> bool {
    (forall|i: int| 0 <= i < list.len() ==> #[trigger] list[i].1 is None) || (forall|i: int|
        0 <= i < list.len() ==> #[trigger] list[i].1 is Some)
}

/// A number of tuning notes that the caller accepts: the expected number,
/// or any supported string count.
pub open spec fn count_accepted(n: int, expected: Option<usize>) -> bool {
    match expected {
        Some(e) => n == e,
        None => supported_count(n),
    }
}

proof fn lemma_count_octaves(list: Seq<(NoteName, Option<int>)>)
    ensures
        count_octaves(list) <= list.len(),
        count_octaves(list) == 0 <==> forall|i: int| 0 <= i < list.len() ==> #[trigger] list[i].1 is None,
        count_octaves(list) == list.len() <==> forall|i: int| 0 <= i < list.len() ==> #[trigger] list[i].1 is Some,
    decreases list.len(),
{
    if list.len() > 0 {
        let p = list.drop_last();
        lemma_count_octaves(p);
        assert forall|i: int| 0 <= i < p.len() implies #[trigger] p[i] == list[i] by {}
        if count_octaves(list) == 0 {
            assert forall|i: int| 0 <= i < list.len() implies #[trigger] list[i].1 is None by {
                if i < p.len() {
                    assert(p[i] == list[i]);
                }
            }
        }
        if count_octaves(list) == list.len() {
            assert forall|i: int| 0 <= i < list.len() implies #[trigger] list[i].1 is Some by {
                if i < p.len() {
                    assert(p[i] == list[i]);
                }
            }
        }
        if forall|i: int| 0 <= i < list.len() ==> #[trigger] list[i].1 is None {
            assert forall|i: int| 0 <= i < p.len() implies #[trigger] p[i].1 is None by {
                assert(p[i] == list[i]);
            }
            assert(list[list.len() - 1].1 is None);
        }
        if forall|i: int| 0 <= i < list.len() ==> #[trigger] list[i].1 is Some {
            assert forall|i: int| 0 <= i < p.len() implies #[trigger] p[i].1 is Some by {
                assert(p[i] == list[i]);
            }
            assert(list[list.len() - 1].1 is Some);
        }
    }
}

/// The finished tokens of a prefix that ends at a token's end are tokens
/// of the whole text.
proof fn lemma_tokens_prefix(s: Seq<char>, m: int)
    requires
        0 <= m <= s.len(),
        m == s.len() || is_tuning_separator(s[m]),
    ensures
        tuning_tokens(s.take(m)).len() <= tuning_tokens(s).len(),
        forall|k: int|
            0 <= k < tuning_tokens(s.take(m)).len() ==> #[trigger] tuning_tokens(s.take(m))[k]
                == tuning_tokens(s)[k],
    decreases s.len() - m,
{
    if m == s.len() {
        assert(s.take(m) == s);
    } else {
        lemma_tokens_prefix_gen(s, m);
    }
}

/// The tokens of a prefix, but for the last, are tokens of the whole
/// text; the last is too when the next character separates.
proof fn lemma_tokens_prefix_gen(s: Seq<char>, m: int)
    requires
        0 <= m <= s.len(),
    ensures
        tuning_tokens(s.take(m)).len() <= tuning_tokens(s).len(),
        forall|k: int|
            0 <= k < tuning_tokens(s.take(m)).len() - 1 ==> #[trigger] tuning_tokens(s.take(m))[k]
                == tuning_tokens(s)[k],
        m < s.len() && is_tuning_separator(s[m]) ==> forall|k: int|
            0 <= k < tuning_tokens(s.take(m)).len() ==> #[trigger] tuning_tokens(s.take(m))[k]
                == tuning_tokens(s)[k],
    decreases s.len() - m,
{
    if m == s.len() {
        assert(s.take(m) == s);
    } else {
        lemma_tokens_prefix_gen(s, m + 1);
        let a = s.take(m);
        let b = s.take(m + 1);
        assert(b.drop_last() == a);
        assert(b.last() == s[m]);
        if m >= 1 {
            assert(b[b.len() - 2] == s[m - 1]);
        }
        let ta = tuning_tokens(a);
        let tb = tuning_tokens(b);
        assert forall|k: int| 0 <= k < ta.len() - 1 implies #[trigger] ta[k] == tuning_tokens(s)[k] by {
            assert(tb[k] == ta[k]);
        }
        if is_tuning_separator(s[m]) {
            assert(tb == ta);
            if m + 1 < s.len() && is_tuning_separator(s[m + 1]) {
            } else {
                assert forall|k: int| 0 <= k < ta.len() implies #[trigger] ta[k] == tuning_tokens(s)[k] by {
                    if k < tb.len() - 1 {
                    } else {
                        lemma_tokens_last_kept(s, m + 1);
                    }
                }
            }
        }
    }
}

proof fn lemma_tokens_len_mono(s: Seq<char>, m: int)
    requires
        0 <= m <= s.len(),
    ensures
        tuning_tokens(s.take(m)).len() <= tuning_tokens(s).len(),
    decreases s.len() - m,
{
    if m == s.len() {
        assert(s.take(m) == s);
    } else {
        lemma_tokens_len_mono(s, m + 1);
        let b = s.take(m + 1);
        assert(b.drop_last() == s.take(m));
    }
}

/// After a separator, the token then last stays as it is.
proof fn lemma_tokens_last_kept(s: Seq<char>, m: int)
    requires
        1 <= m <= s.len(),
        is_tuning_separator(s[m - 1]),
        tuning_tokens(s.take(m)).len() > 0,
    ensures
        tuning_tokens(s.take(m)).len() <= tuning_tokens(s).len(),
        tuning_tokens(s.take(m)).last() == tuning_tokens(s)[tuning_tokens(s.take(m)).len() - 1],
    decreases s.len() - m,
{
    if m == s.len() {
        assert(s.take(m) == s);
    } else {
        let a = s.take(m);
        let b = s.take(m + 1);
        assert(b.drop_last() == a);
        assert(b.last() == s[m]);
        assert(b[b.len() - 2] == s[m - 1]);
        let ta = tuning_tokens(a);
        let tb = tuning_tokens(b);
        assert(tb[ta.len() - 1] == ta.last());
        lemma_tokens_len_mono(s, m + 1);
        if is_tuning_separator(s[m]) {
            assert(tb == ta);
            lemma_tokens_last_kept(s, m + 1);
        } else {
            lemma_tokens_kept_from(s, m + 1, ta.len() - 1);
        }
    }
}

/// A token before the last is never changed by what follows.
proof fn lemma_tokens_kept_from(s: Seq<char>, m: int, k: int)
    requires
        1 <= m <= s.len(),
        0 <= k < tuning_tokens(s.take(m)).len() - 1,
    ensures
        tuning_tokens(s.take(m))[k] == tuning_tokens(s)[k],
    decreases s.len() - m,
{
    if m == s.len() {
        assert(s.take(m) == s);
    } else {
        let a = s.take(m);
        let b = s.take(m + 1);
        assert(b.drop_last() == a);
        assert(b[b.len() - 2] == s[m - 1]);
        lemma_tokens_kept_from(s, m + 1, k);
    }
}

/// The notes of a compact tuning such as `DADGAD` or `E2A2D3G3B3E4`: note
/// names one after another, each optionally followed by an octave of at
/// most 127.
pub open spec fn compact_tuning_notes(s: Seq<char>) -> Option<Seq<(NoteName, Option<int>)>>
    decreases s.len(),
{
    if s.len() == 0 {
        Some(seq![])
    } else {
        match note_prefix(s) {
            None => None,
            Some((n, k)) => {
                let rest = s.skip(k);
                let d = lead_digits(rest);
                if k < 1 || k > s.len() || d > rest.len() {
                    None
                } else {
                    let octave = if d == 0 {
                        Some(None)
                    } else {
                        match octave_value(rest.take(d as int)) {
                            Some(v) => Some(Some(v)),
                            None => None,
                        }
                    };
                    match octave {
                        None => None,
                        Some(o) => match compact_tuning_notes(rest.skip(d as int)) {
                            None => None,
                            Some(tail) => Some(seq![(n, o)] + tail),
                        },
                    }
                }
            },
        }
    }
}

proof fn lemma_lead_digits_le(s: Seq<char>)
    ensures
        lead_digits(s) <= s.len(),
    decreases s.len(),
{
    if s.len() > 0 && is_digit(s[0]) {
        lemma_lead_digits_le(s.drop_first());
    }
}

/// How a tuning holds the notes `list` it was read from: one string per
/// note, each string's note; with octaves, each open pitch is the note's
/// octave pitch; without, a four-note ukulele pattern of G C E A is
/// re-entrant and other tunings rise string by string.
pub open spec fn tuning_holds(t: Tuning, list: Seq<(NoteName, Option<int>)>) -> bool {
    &&& t.spec_string_count() == list.len()
    &&& forall|i: int| 0 <= i < list.len() ==> #[trigger] t.spec_note(i) == list[i].0
    &&& (list.len() > 0 && forall|i: int| 0 <= i < list.len() ==> #[trigger] list[i].1 is Some) ==> forall|
        i: int,
    | 0 <= i < list.len() ==> #[trigger] t.spec_open_pitch(i) == octave_pitch(list[i].0, list[i].1->0)
    &&& (forall|i: int| 0 <= i < list.len() ==> #[trigger] list[i].1 is None) ==> if t.spec_instrument()
        == Instrument::Ukulele && ukulele_reentrant(list.map_values(|x: (NoteName, Option<int>)| x.0)) {
        open_pitches_reentrant(t)
    } else {
        open_pitches_rise(t)
    }
}

proof fn lemma_has_separator(s: Seq<char>, start: int, end: int, text: Seq<char>)
    requires
        0 <= start <= end <= s.len(),
        text == s.subrange(start, end),
    ensures
        (exists|i: int| start <= i < end && is_tuning_separator(#[trigger] s[i])) == (exists|i: int|
            0 <= i < text.len() && is_tuning_separator(#[trigger] text[i])),
{
    if exists|i: int| start <= i < end && is_tuning_separator(#[trigger] s[i]) {
        let i = choose|i: int| start <= i < end && is_tuning_separator(#[trigger] s[i]);
        assert(text[i - start] == s[i]);
    }
    if exists|i: int| 0 <= i < text.len() && is_tuning_separator(#[trigger] text[i]) {
        let i = choose|i: int| 0 <= i < text.len() && is_tuning_separator(#[trigger] text[i]);
        assert(text[i] == s[start + i]);
    }
}

/// The notes a tuning text names: separated tokens when it holds a
/// separator, else compact note names.
pub open spec fn tuning_text_notes(t: Seq<char>) -> Option<Seq<(NoteName, Option<int>)>> {
    if exists|i: int| 0 <= i < t.len() && is_tuning_separator(#[trigger] t[i]) {
        token_notes(tuning_tokens(t))
    } else {
        compact_tuning_notes(t)
    }
}

/// How a parsed tuning holds the notes `list`: its count, its first eight
/// notes, and their open pitches when the notes name octaves.
spec fn parsed_holds(p: ParsedTuning, list: Seq<(NoteName, Option<int>)>) -> bool {
    &&& p.string_count == list.len()
    &&& forall|i: int| 0 <= i < list.len() && i < 8 ==> #[trigger] p.notes@[i] == list[i].0
    &&& (p.open_pitches is None) <==> (forall|i: int| 0 <= i < list.len() ==> #[trigger] list[i].1 is None)
    &&& p.open_pitches matches Some(op) ==> forall|i: int|
        0 <= i < list.len() && i < 8 ==> #[trigger] op@[i] == octave_pitch(list[i].0, list[i].1->0)
}

/// A tuning read from text, before the instrument is decided.
#[derive(Copy, Clone, Debug, Eq, PartialEq)]
struct ParsedTuning {
    notes: [NoteName; 8],
    open_pitches: Option<[i16; 8]>,
    string_count: usize,
}

impl ParsedTuning {
    spec fn wf(self) -> bool {
        &&& self.open_pitches matches Some(p) ==> forall|i: int| 0 <= i < 8 ==> 0 <= #[trigger] p@[i]
            <= max_open_pitch()
        &&& self.open_pitches matches Some(p) ==> forall|i: int|
            0 <= i < 8 && i < self.string_count ==> pitch_mod(#[trigger] p@[i] as int) == note_pitch(
                self.notes@[i],
            )
    }
}

fn parse_separated_tuning(s: &[char], start: usize, end: usize, expected: Option<usize>) -> (r:
    Result<ParsedTuning, ChordClawError>)
    requires
        start <= end <= s@.len(),
        expected matches Some(e) ==> e <= 8,
    ensures
        r matches Ok(p) ==> p.wf(),
        r matches Ok(p) ==> (expected matches Some(e) ==> p.string_count == e),
        match token_notes(tuning_tokens(s@.subrange(start as int, end as int))) {
            None => r is Err,
            Some(list) => (r is Ok <==> count_accepted(list.len() as int, expected) && octaves_consistent(
                list,
            )) && (r matches Ok(p) ==> parsed_holds(p, list)) && (expected is None && !supported_count(
                list.len() as int,
            ) ==> (r matches Err(e) && e.spec_message() == "expected 4, 6, 7, or 8 "@ + "tuning notes"@
                + ", got "@ + decimal(list.len()))) && (expected is Some && list.len() != expected->0 ==> (r matches Err(
                e,
            ) && e.spec_message() == "expected "@ + decimal(expected->0 as nat) + seq![' '] + "tuning notes"@ + ", got "@
                + decimal(list.len()))) && (count_accepted(list.len() as int, expected) && !octaves_consistent(list)
                ==> (r matches Err(e) && e.spec_message()
                == "invalid tuning: provide octaves for every note or for none"@)),
        },
{
    let ghost text = s@.subrange(start as int, end as int);
    let mut notes = [note(NoteLetter::C, 0); 8];
    let mut open_pitches = [0i16; 8];
    let mut count: usize = 0;
    let mut octave_count: usize = 0;
    let ghost mut done: Seq<(NoteName, Option<int>)> = Seq::empty();
    let mut i = start;
    while i < end
        invariant
            start <= i <= end <= s@.len(),
            text == s@.subrange(start as int, end as int),
            expected matches Some(e) ==> e <= 8,
            octave_count <= count <= i - start,
            forall|k: int| 0 <= k < 8 ==> 0 <= #[trigger] open_pitches@[k] <= max_open_pitch(),
            octave_count == count ==> forall|k: int|
                0 <= k < 8 && k < count ==> pitch_mod(#[trigger] open_pitches@[k] as int) == note_pitch(
                    notes@[k],
                ),
            count == tuning_tokens(s@.subrange(start as int, i as int)).len(),
            i > start && !is_tuning_separator(s@[i - 1]) ==> (i == end || is_tuning_separator(s@[i as int])),
            done.len() == if count < 8 { count as int } else { 8 },
            forall|j: int| 0 <= j < done.len() ==> tuning_note(
                #[trigger] tuning_tokens(s@.subrange(start as int, i as int))[j],
            ) == Some(done[j]),
            forall|j: int| 0 <= j < done.len() ==> #[trigger] notes@[j] == done[j].0,
            octave_count == count_octaves(done),
            forall|j: int| 0 <= j < done.len() ==> (#[trigger] done[j].1 matches Some(o) ==> open_pitches@[j]
                == octave_pitch(done[j].0, o)),
        decreases end - i,
    {
        let ghost before = s@.subrange(start as int, i as int);
        if tuning_separator(s[i]) {
            proof {
                assert(s@.subrange(start as int, i + 1).drop_last() == before);
            }
            i += 1;
            continue;
        }
        let token_start = i;
        let ghost toks0 = tuning_tokens(before);
        while i < end && !tuning_separator(s[i])
            invariant
                token_start < end,
                start <= token_start <= i <= end <= s@.len(),
                !is_tuning_separator(s@[token_start as int]),
                token_start == start || is_tuning_separator(s@[token_start - 1]),
                toks0 == tuning_tokens(s@.subrange(start as int, token_start as int)),
                i == token_start ==> tuning_tokens(s@.subrange(start as int, i as int)) == toks0,
                i > token_start ==> tuning_tokens(s@.subrange(start as int, i as int)) == toks0.push(
                    s@.subrange(token_start as int, i as int),
                ),
                forall|k: int| token_start <= k < i ==> !is_tuning_separator(#[trigger] s@[k]),
            decreases end - i,
        {
            proof {
                let pre = s@.subrange(start as int, i as int);
                let post = s@.subrange(start as int, i + 1);
                assert(post.drop_last() == pre);
                assert(post.last() == s@[i as int]);
                if i > token_start {
                    assert(post[post.len() - 2] == s@[i - 1]);
                    assert(s@.subrange(token_start as int, i + 1) == s@.subrange(token_start as int, i as int).push(
                        s@[i as int],
                    ));
                    assert(toks0.push(s@.subrange(token_start as int, i as int)).update(
                        toks0.len() as int,
                        s@.subrange(token_start as int, i + 1),
                    ) == toks0.push(s@.subrange(token_start as int, i + 1)));
                } else {
                    if i > start {
                        assert(post[post.len() - 2] == s@[i - 1]);
                    }
                    assert(s@.subrange(token_start as int, i + 1) == seq![s@[i as int]]);
                }
            }
            i += 1;
        }
        let ghost token = s@.subrange(token_start as int, i as int);
        let ghost toks = tuning_tokens(s@.subrange(start as int, i as int));
        assert(toks == toks0.push(token));
        if count >= MAX_STRING_COUNT {
            count += 1;
            continue;
        }
        let (parsed_note, open_pitch) = match parse_tuning_note(s, token_start, i) {
            Ok(v) => v,
            Err(e) => {
                proof {
                    if i < end {
                        assert(text[i - start] == s@[i as int]);
                    }
                    lemma_tokens_prefix(text, i - start);
                    assert(text.take(i - start) == s@.subrange(start as int, i as int));
                    assert(toks[count as int] == token);
                    assert(tuning_tokens(text)[count as int] == token);
                }
                return Err(e);
            },
        };
        let ghost entry = tuning_note(token)->0;
        notes[count] = parsed_note;
        if let Some(pitch) = open_pitch {
            open_pitches[count] = pitch;
            octave_count += 1;
        }
        proof {
            let old_done = done;
            done = done.push(entry);
            assert(done.drop_last() == old_done);
        }
        count += 1;
    }
    proof {
        assert(s@.subrange(start as int, i as int) == text);
    }
    validate_count(count, expected, "tuning notes")?;
    proof {
        let toks = tuning_tokens(text);
        assert(done.len() == toks.len());
        assert forall|j: int| 0 <= j < toks.len() implies #[trigger] tuning_note(toks[j]) is Some by {
            assert(tuning_note(toks[j]) == Some(done[j]));
        }
        let list = token_notes(toks)->0;
        assert(list == done);
        lemma_count_octaves(done);
    }
    validate_tuning_octaves(count, octave_count)?;
    Ok(
        ParsedTuning {
            notes,
            open_pitches: if octave_count == 0 {
                None
            } else {
                Some(open_pitches)
            },
            string_count: count,
        },
    )
}

#[verifier::rlimit(40)]
fn parse_compact_tuning(s: &[char], start: usize, end: usize, expected: Option<usize>) -> (r: Result<
    ParsedTuning,
    ChordClawError,
>)
    requires
        start <= end <= s@.len(),
        expected matches Some(e) ==> e <= 8,
    ensures
        r matches Ok(p) ==> p.wf(),
        r matches Ok(p) ==> (expected matches Some(e) ==> p.string_count == e),
        match compact_tuning_notes(s@.subrange(start as int, end as int)) {
            None => r is Err,
            Some(list) => (r is Ok <==> count_accepted(list.len() as int, expected) && octaves_consistent(
                list,
            )) && (r matches Ok(p) ==> parsed_holds(p, list)) && (expected is None && !supported_count(
                list.len() as int,
            ) ==> (r matches Err(e) && e.spec_message() == "expected 4, 6, 7, or 8 "@ + "tuning notes"@
                + ", got "@ + decimal(list.len()))) && (expected is Some && list.len() != expected->0 ==> (r matches Err(
                e,
            ) && e.spec_message() == "expected "@ + decimal(expected->0 as nat) + seq![' '] + "tuning notes"@ + ", got "@
                + decimal(list.len()))) && (count_accepted(list.len() as int, expected) && !octaves_consistent(list)
                ==> (r matches Err(e) && e.spec_message()
                == "invalid tuning: provide octaves for every note or for none"@)),
        },
{
    let ghost text = s@.subrange(start as int, end as int);
    let mut notes = [note(NoteLetter::C, 0); 8];
    let mut open_pitches = [0i16; 8];
    let mut count: usize = 0;
    let mut octave_count: usize = 0;
    let ghost mut done: Seq<(NoteName, Option<int>)> = Seq::empty();
    let mut rest = start;
    assert(done + Seq::<(NoteName, Option<int>)>::empty() == done);
    while rest < end
        invariant
            start <= rest <= end <= s@.len(),
            text == s@.subrange(start as int, end as int),
            expected matches Some(e) ==> e <= 8,
            octave_count <= count <= rest - start,
            forall|k: int| 0 <= k < 8 ==> 0 <= #[trigger] open_pitches@[k] <= max_open_pitch(),
            octave_count == count ==> forall|k: int|
                0 <= k < 8 && k < count ==> pitch_mod(#[trigger] open_pitches@[k] as int) == note_pitch(
                    notes@[k],
                ),
            count == done.len(),
            (compact_tuning_notes(text) is Some) == (compact_tuning_notes(
                s@.subrange(rest as int, end as int),
            ) is Some),
            compact_tuning_notes(text) matches Some(l) ==> l == done + compact_tuning_notes(
                s@.subrange(rest as int, end as int),
            )->0,
            forall|j: int| 0 <= j < done.len() && j < 8 ==> #[trigger] notes@[j] == done[j].0,
            octave_count == count_octaves(done),
            forall|j: int| 0 <= j < done.len() && j < 8 ==> (#[trigger] done[j].1 matches Some(o)
                ==> open_pitches@[j] == octave_pitch(done[j].0, o)),
        decreases end - rest,
    {
        let ghost here = s@.subrange(rest as int, end as int);
        let (parsed, next) = parse_note_prefix(s, rest, end)?;
        let ghost k = next - rest;
        assert(here.skip(k) == s@.subrange(next as int, end as int));
        let ghost after_note = s@.subrange(next as int, end as int);
        let (octave, after_octave) = match parse_optional_octave(s, next, end) {
            Ok(v) => v,
            Err(e) => {
                return Err(e);
            },
        };
        let ghost d = after_octave - next;
        proof {
            lemma_lead_digits_le(after_note);
            assert(after_note.skip(d) == s@.subrange(after_octave as int, end as int));
        }
        let ghost o: Option<int> = match octave {
            Some(v) => Some(v as int),
            None => None,
        };
        if count < MAX_STRING_COUNT {
            notes[count] = parsed;
            if let Some(octave) = octave {
                open_pitches[count] = absolute_note_pitch(parsed, octave);
                octave_count += 1;
            }
        } else {
            if octave.is_some() {
                octave_count += 1;
            }
        }
        proof {
            let old_done = done;
            done = done.push((parsed, o));
            assert(done.drop_last() == old_done);
            let tail = s@.subrange(after_octave as int, end as int);
            if compact_tuning_notes(here) is Some {
                assert(compact_tuning_notes(here)->0 == seq![(parsed, o)] + compact_tuning_notes(tail)->0);
                assert(old_done + (seq![(parsed, o)] + compact_tuning_notes(tail)->0) == done
                    + compact_tuning_notes(tail)->0);
            }
        }
        count += 1;
        rest = after_octave;
    }
    proof {
        assert(s@.subrange(rest as int, end as int) == Seq::<char>::empty());
        assert(done + Seq::<(NoteName, Option<int>)>::empty() == done);
    }
    validate_count(count, expected, "tuning notes")?;
    proof {
        lemma_count_octaves(done);
    }
    validate_tuning_octaves(count, octave_count)?;
    Ok(
        ParsedTuning {
            notes,
            open_pitches: if octave_count == 0 {
                None
            } else {
                Some(open_pitches)
            },
            string_count: count,
        },
    )
}

/// The note and octave of one tuning note such as `E`, `F#`, or `G3`: a
/// note name, then optionally an octave of at most 127, and nothing else.
pub open spec fn tuning_note(t: Seq<char>) -> Option<(NoteName, Option<int>)> {
    match note_prefix(t) {
        None => None,
        Some((n, k)) => {
            let rest = t.skip(k);
            let d = lead_digits(rest);
            if d != rest.len() {
                None
            } else if d == 0 {
                Some((n, None))
            } else {
                match octave_value(rest) {
                    Some(v) => Some((n, Some(v))),
                    None => None,
                }
            }
        },
    }
}

/// The absolute open pitch that a note with an octave names.
pub open spec fn octave_pitch(n: NoteName, octave: int) -> int {
    octave * 12 + note_pitch(n)
}

/// Parses one tuning note such as `E`, `F#`, or `G3`.
fn parse_tuning_note(s: &[char], start: usize, end: usize) -> (r: Result<
    (NoteName, Option<i16>),
    ChordClawError,
>)
    requires
        start <= end <= s@.len(),
    ensures
        r matches Ok((n, Some(p))) ==> 0 <= p <= max_open_pitch() && pitch_mod(p as int) == note_pitch(n),
        match r {
            Ok((n, p)) => match tuning_note(s@.subrange(start as int, end as int)) {
                Some((m, o)) => m == n && match o {
                    None => p is None,
                    Some(v) => p matches Some(q) && q == octave_pitch(n, v),
                },
                None => false,
            },
            Err(_) => tuning_note(s@.subrange(start as int, end as int)) is None,
        },
{
    let ghost t = s@.subrange(start as int, end as int);
    let (parsed, rest) = parse_note_prefix(s, start, end)?;
    let ghost k = rest - start;
    assert(t.skip(k) == s@.subrange(rest as int, end as int));
    let ghost r2 = s@.subrange(rest as int, end as int);
    let (octave, after) = match parse_optional_octave(s, rest, end) {
        Ok(v) => v,
        Err(e) => {
            proof {
                if lead_digits(r2) == r2.len() {
                    assert(r2.take(r2.len() as int) == r2);
                }
            }
            return Err(e);
        },
    };
    if after != end {
        let mut msg: Vec<char> = Vec::new();
        push_str(&mut msg, "invalid tuning note '");
        push_range(&mut msg, s, start, end);
        msg.push('\'');
        return Err(ChordClawError::from_chars(&msg));
    }
    proof {
        assert(r2.take(r2.len() as int) == r2);
    }
    Ok(
        (
            parsed,
            match octave {
                Some(o) => Some(absolute_note_pitch(parsed, o)),
                None => None,
            },
        ),
    )
}

/// Appends `s[start..end]` to `out`.
pub fn push_range(out: &mut Vec<char>, s: &[char], start: usize, end: usize)
    requires
        start <= end <= s@.len(),
    ensures
        final(out)@ == old(out)@ + s@.subrange(start as int, end as int),
{
    let ghost init = out@;
    let mut i = start;
    while i < end
        invariant
            start <= i <= end <= s@.len(),
            out@ == init + s@.subrange(start as int, i as int),
        decreases end - i,
    {
        out.push(s[i]);
        i += 1;
        assert(out@ =~= init + s@.subrange(start as int, i as int));
    }
}

/// The octave that a run of digits gives, when it is at most 127.
pub open spec fn octave_value(digits: Seq<char>) -> Option<int> {
    if digits_value(digits) <= 127 {
        Some(digits_value(digits))
    } else {
        None
    }
}

/// Reads an optional run of ASCII digits at `start` as an octave, `0..=127`.
fn parse_optional_octave(s: &[char], start: usize, end: usize) -> (r: Result<
    (Option<i8>, usize),
    ChordClawError,
>)
    requires
        start <= end <= s@.len(),
    ensures
        ({
            let t = s@.subrange(start as int, end as int);
            let d = lead_digits(t);
            if d == 0 {
                r matches Ok((None, next)) && next == start
            } else {
                match octave_value(t.take(d as int)) {
                    None => r is Err,
                    Some(v) => r matches Ok((Some(o), next)) && o == v && next == start + d,
                }
            }
        }),
        r matches Ok((o, next)) ==> start <= next <= end,
        r matches Ok((Some(o), next)) ==> 0 <= o,
        r matches Ok((None, next)) ==> next == start,
{
    let ghost t = s@.subrange(start as int, end as int);
    let mut i = start;
    let mut value: u32 = 0;
    let mut overflow = false;
    while i < end && '0' <= s[i] && s[i] <= '9'
        invariant
            start <= i <= end <= s@.len(),
            value <= 127,
            t == s@.subrange(start as int, end as int),
            forall|k: int| start <= k < i ==> is_digit(#[trigger] s@[k]),
            !overflow ==> value == digits_value(s@.subrange(start as int, i as int)),
            overflow ==> digits_value(s@.subrange(start as int, i as int)) > 127,
        decreases end - i,
    {
        let d = (s[i] as u32) - ('0' as u32);
        let ghost before = s@.subrange(start as int, i as int);
        let ghost after = s@.subrange(start as int, i + 1);
        assert(after.drop_last() == before);
        proof {
            assert forall|k: int| 0 <= k < after.len() implies is_digit(#[trigger] after[k]) by {
                assert(after[k] == s@[start + k]);
            }
            lemma_digits_value_grows(after);
            assert forall|k: int| 0 <= k < before.len() implies is_digit(#[trigger] before[k]) by {
                assert(before[k] == s@[start + k]);
            }
            lemma_digits_value_nonnegative(before);
        }
        if !overflow {
            let next = value * 10 + d;
            if next > 127 {
                overflow = true;
            } else {
                value = next;
            }
        }
        i += 1;
    }
    proof {
        assert forall|k: int| 0 <= k < i - start implies is_digit(#[trigger] t[k]) by {
            assert(t[k] == s@[start + k]);
        }
        if i < end {
            assert(t[i - start] == s@[i as int]);
        }
        lemma_lead_digits(t, i - start);
        assert(t.take(i - start) == s@.subrange(start as int, i as int));
    }
    if i == start {
        return Ok((None, start));
    }
    if overflow {
        let mut msg: Vec<char> = Vec::new();
        push_str(&mut msg, "invalid tuning octave '");
        push_range(&mut msg, s, start, i);
        msg.push('\'');
        return Err(ChordClawError::from_chars(&msg));
    }
    Ok((Some(value as i8), i))
}

fn absolute_note_pitch(n: NoteName, octave: i8) -> (p: i16)
    requires
        octave >= 0,
    ensures
        p == octave * 12 + note_pitch(n),
        0 <= p <= max_open_pitch(),
        pitch_mod(p as int) == note_pitch(n),
{
    let v = pc_value(n);
    let ghost o = octave as int;
    assert((o * 12 + v) % 12 == v) by (nonlinear_arith)
        requires
            0 <= v < 12,
            o >= 0,
    ;
    octave as i16 * 12 + v
}

fn validate_tuning_octaves(count: usize, octave_count: usize) -> (r: Result<(), ChordClawError>)
    ensures
        r is Ok <==> (octave_count == 0 || octave_count == count),
        r matches Err(e) ==> e.spec_message() == "invalid tuning: provide octaves for every note or for none"@,
{
    if octave_count == 0 || octave_count == count {
        Ok(())
    } else {
        let mut msg: Vec<char> = Vec::new();
        push_str(&mut msg, "invalid tuning: provide octaves for every note or for none");
        Err(ChordClawError::from_chars(&msg))
    }
}

/// A set of pitch classes, one bit per pitch class.
#[derive(Copy, Clone, Debug, Eq, PartialEq, Structural)]
pub struct PitchSet {
    pub bits: u16,
}

/// Whether bit `p` of `bits` is set.
pub open spec fn bit_set(bits: u16, p: u16) -> bool {
    bits & (1u16 << p) != 0
}

proof fn lemma_bit_or(bits: u16, p: u16, q: u16)
    requires
        p < 16,
        q < 16,
    ensures
        bit_set(bits | (1u16 << p), q) == (bit_set(bits, q) || p == q),
{
    assert(bit_set(bits | (1u16 << p), q) == (bit_set(bits, q) || p == q)) by (bit_vector)
        requires
            p < 16,
            q < 16,
    ;
}

proof fn lemma_bit_and_not(a: u16, b: u16, q: u16)
    requires
        q < 16,
    ensures
        bit_set(a & !b, q) == (bit_set(a, q) && !bit_set(b, q)),
        bit_set(a | b, q) == (bit_set(a, q) || bit_set(b, q)),
        bit_set(a & b, q) == (bit_set(a, q) && bit_set(b, q)),
{
    assert(bit_set(a & !b, q) == (bit_set(a, q) && !bit_set(b, q))) by (bit_vector)
        requires
            q < 16,
    ;
    assert(bit_set(a | b, q) == (bit_set(a, q) || bit_set(b, q))) by (bit_vector)
        requires
            q < 16,
    ;
    assert(bit_set(a & b, q) == (bit_set(a, q) && bit_set(b, q))) by (bit_vector)
        requires
            q < 16,
    ;
}

/// Two bit sets with the same low 12 bits and nothing above are equal.
pub proof fn lemma_bits_ext(a: u16, b: u16)
    requires
        a < 4096,
        b < 4096,
        forall|q: u16| q < 12 ==> bit_set(a, q) == bit_set(b, q),
    ensures
        a == b,
{
    assert(bit_set(a, 0) == bit_set(b, 0));
    assert(bit_set(a, 1) == bit_set(b, 1));
    assert(bit_set(a, 2) == bit_set(b, 2));
    assert(bit_set(a, 3) == bit_set(b, 3));
    assert(bit_set(a, 4) == bit_set(b, 4));
    assert(bit_set(a, 5) == bit_set(b, 5));
    assert(bit_set(a, 6) == bit_set(b, 6));
    assert(bit_set(a, 7) == bit_set(b, 7));
    assert(bit_set(a, 8) == bit_set(b, 8));
    assert(bit_set(a, 9) == bit_set(b, 9));
    assert(bit_set(a, 10) == bit_set(b, 10));
    assert(bit_set(a, 11) == bit_set(b, 11));
    assert(a == b) by (bit_vector)
        requires
            a < 4096,
            b < 4096,
            bit_set(a, 0) == bit_set(b, 0),
            bit_set(a, 1) == bit_set(b, 1),
            bit_set(a, 2) == bit_set(b, 2),
            bit_set(a, 3) == bit_set(b, 3),
            bit_set(a, 4) == bit_set(b, 4),
            bit_set(a, 5) == bit_set(b, 5),
            bit_set(a, 6) == bit_set(b, 6),
            bit_set(a, 7) == bit_set(b, 7),
            bit_set(a, 8) == bit_set(b, 8),
            bit_set(a, 9) == bit_set(b, 9),
            bit_set(a, 10) == bit_set(b, 10),
            bit_set(a, 11) == bit_set(b, 11),
    ;
}

/// Number of set bits among the lowest `n`.
pub open spec fn count_bits(bits: u16, n: nat) -> nat
    decreases n,
{
    if n == 0 {
        0
    } else {
        count_bits(bits, (n - 1) as nat) + if bit_set(bits, (n - 1) as u16) {
            1nat
        } else {
            0nat
        }
    }
}

proof fn lemma_count_bits_bound(bits: u16, n: nat)
    ensures
        count_bits(bits, n) <= n,
    decreases n,
{
    if n > 0 {
        lemma_count_bits_bound(bits, (n - 1) as nat);
    }
}

impl PitchSet {
    /// Pitch classes are the low twelve bits.
    pub open spec fn wf(self) -> bool {
        self.bits < 4096
    }

    /// Whether pitch value `p` is in the set.
    pub open spec fn has(self, p: int) -> bool {
        0 <= p < 12 && bit_set(self.bits, p as u16)
    }

    /// The pitch classes of the set.
    pub open spec fn pitches(self) -> Set<int> {
        Set::new(|p: int| self.has(p))
    }

    /// Number of pitch classes in the set.
    pub open spec fn size(self) -> nat {
        count_bits(self.bits, 12)
    }

    /// The empty set.
    pub fn empty() -> (s: Self)
        ensures
            s.wf(),
            forall|p: int| !s.has(p),
    {
        proof {
            assert forall|p: u16| p < 12 implies !bit_set(0u16, p) by {
                assert(!bit_set(0u16, p)) by (bit_vector);
            }
        }
        PitchSet { bits: 0 }
    }

    /// All twelve pitch classes.
    pub fn all() -> (s: Self)
        ensures
            s.wf(),
            forall|p: int| 0 <= p < 12 ==> s.has(p),
    {
        proof {
            assert forall|p: u16| p < 12 implies bit_set(0x0fffu16, p) by {
                assert(bit_set(0x0fffu16, p)) by (bit_vector)
                    requires
                        p < 12,
                ;
            }
        }
        PitchSet { bits: 0x0fff }
    }

    /// Adds `pitch` to the set.
    pub fn insert(&mut self, pitch: PitchClass)
        requires
            old(self).wf(),
        ensures
            final(self).wf(),
            forall|p: int| final(self).has(p) == (old(self).has(p) || p == pitch.spec_value()),
    {
        let v = pitch.value() as u16;
        let old_bits = self.bits;
        self.bits = self.bits | (1u16 << v);
        proof {
            let nb = self.bits;
            assert(nb < 4096) by (bit_vector)
                requires
                    old_bits < 4096,
                    v < 12,
                    nb == old_bits | (1u16 << v),
            ;
            assert forall|p: int| 0 <= p < 12 implies #[trigger] bit_set(nb, p as u16) == (bit_set(
                old_bits,
                p as u16,
            ) || p == v) by {
                lemma_bit_or(old_bits, v, p as u16);
            }
        }
    }

    /// The set with `pitch` added.
    pub fn with(self, pitch: PitchClass) -> (s: Self)
        requires
            self.wf(),
        ensures
            s.wf(),
            forall|p: int| s.has(p) == (self.has(p) || p == pitch.spec_value()),
    {
        let mut out = self;
        out.insert(pitch);
        out
    }

    /// Whether `pitch` is in the set.
    pub fn contains(self, pitch: PitchClass) -> (b: bool)
        ensures
            b == self.has(pitch.spec_value() as int),
    {
        let v = pitch.value() as u16;
        self.bits & (1u16 << v) != 0
    }

    /// Whether pitch value `v` is in the set.
    pub fn contains_value(self, v: u8) -> (b: bool)
        requires
            v < 12,
        ensures
            b == self.has(v as int),
    {
        self.bits & (1u16 << (v as u16)) != 0
    }

    /// Members of `self` that are not in `other`.
    pub fn difference(self, other: Self) -> (s: Self)
        requires
            self.wf(),
        ensures
            s.wf(),
            forall|p: int| s.has(p) == (self.has(p) && !other.has(p)),
    {
        let bits = self.bits & !other.bits;
        proof {
            let a = self.bits;
            let b = other.bits;
            assert(bits < 4096) by (bit_vector)
                requires
                    a < 4096,
                    bits == a & !b,
            ;
            assert forall|p: int| 0 <= p < 12 implies #[trigger] bit_set(bits, p as u16) == (bit_set(
                a,
                p as u16,
            ) && !bit_set(b, p as u16)) by {
                lemma_bit_and_not(a, b, p as u16);
            }
        }
        PitchSet { bits }
    }

    /// Members of either set.
    pub fn union(self, other: Self) -> (s: Self)
        requires
            self.wf(),
            other.wf(),
        ensures
            s.wf(),
            forall|p: int| s.has(p) == (self.has(p) || other.has(p)),
    {
        let bits = self.bits | other.bits;
        proof {
            let a = self.bits;
            let b = other.bits;
            assert(bits < 4096) by (bit_vector)
                requires
                    a < 4096,
                    b < 4096,
                    bits == a | b,
            ;
            assert forall|p: int| 0 <= p < 12 implies #[trigger] bit_set(bits, p as u16) == (bit_set(
                a,
                p as u16,
            ) || bit_set(b, p as u16)) by {
                lemma_bit_and_not(a, b, p as u16);
            }
        }
        PitchSet { bits }
    }

    /// Number of pitch classes in the set.
    pub fn len(self) -> (n: usize)
        ensures
            n == self.size(),
            n <= 12,
    {
        let mut n: usize = 0;
        let mut p: u16 = 0;
        while p < 12
            invariant
                0 <= p <= 12,
                n == count_bits(self.bits, p as nat),
                n <= p,
            decreases 12 - p,
        {
            if self.bits & (1u16 << p) != 0 {
                n += 1;
            }
            p += 1;
        }
        n
    }

    /// Whether the set has no members.
    pub fn is_empty(self) -> (b: bool)
        ensures
            self.wf() ==> b == (forall|p: int| !self.has(p)),
    {
        proof {
            if self.wf() && self.bits != 0 {
                let bits = self.bits;
                assert(exists|p: u16| p < 12 && bit_set(bits, p)) by {
                    if forall|p: u16| p < 12 ==> !bit_set(bits, p) {
                        assert(forall|p: u16| p < 12 ==> !bit_set(0u16, p)) by {
                            assert forall|p: u16| p < 12 implies !bit_set(0u16, p) by {
                                assert(!bit_set(0u16, p)) by (bit_vector);
                            }
                        }
                        lemma_bits_ext(bits, 0);
                    }
                }
                let q = choose|p: u16| p < 12 && bit_set(bits, p);
                assert(self.has(q as int));
            }
            if self.bits == 0 {
                assert forall|p: u16| p < 12 implies !bit_set(0u16, p) by {
                    assert(!bit_set(0u16, p)) by (bit_vector);
                }
                assert forall|p: int| !self.has(p) by {
                    if 0 <= p < 12 {
                        assert(!bit_set(0u16, p as u16));
                    }
                }
            }
        }
        self.bits == 0
    }

    /// Members in increasing order.
    pub fn members(self) -> (v: Vec<PitchClass>)
        ensures
            forall|i: int| 0 <= i < v@.len() ==> self.has(#[trigger] v@[i].spec_value() as int),
            forall|p: int| self.has(p) ==> exists|i: int| 0 <= i < v@.len() && #[trigger] v@[i].spec_value() == p,
            forall|i: int, j: int| 0 <= i < j < v@.len() ==> v@[i].spec_value() < v@[j].spec_value(),
            v@.len() <= 12,
    {
        let mut v: Vec<PitchClass> = Vec::new();
        let mut p: u8 = 0;
        while p < 12
            invariant
                0 <= p <= 12,
                v@.len() <= p,
                forall|i: int| 0 <= i < v@.len() ==> self.has(#[trigger] v@[i].spec_value() as int),
                forall|i: int| 0 <= i < v@.len() ==> #[trigger] v@[i].spec_value() < p,
                forall|q: int| 0 <= q < p && self.has(q) ==> exists|i: int| 0 <= i < v@.len() && #[trigger] v@[i].spec_value() == q,
                forall|i: int, j: int| 0 <= i < j < v@.len() ==> v@[i].spec_value() < v@[j].spec_value(),
            decreases 12 - p,
        {
            let ghost old_v = v@;
            if self.contains_value(p) {
                let pc = PitchClass::from_value(p);
                v.push(pc);
                assert(v@[v@.len() - 1] == pc);
            }
            proof {
                assert forall|q: int| 0 <= q < p + 1 && self.has(q) implies exists|i: int| 0 <= i < v@.len() && #[trigger] v@[i].spec_value() == q by {
                    if q == p {
                        assert(v@[v@.len() - 1].spec_value() == q);
                    } else {
                        let i = choose|i: int| 0 <= i < old_v.len() && #[trigger] old_v[i].spec_value() == q;
                        assert(v@[i] == old_v[i]);
                    }
                }
            }
            p += 1;
        }
        v
    }
}

/// A fretting: for each string, a fret number or `None` for a muted string.
#[derive(Debug, Eq, PartialEq)]
pub struct Fingering {
    frets: [Option<u8>; 8],
    string_count: usize,
}

/// Frets within the supported range.
pub open spec fn fret_ok(f: Option<u8>) -> bool {
    f matches Some(v) ==> v <= 30
}

impl Fingering {
    #[verifier::type_invariant]
    spec fn inv(self) -> bool {
        &&& self.string_count <= 8
        &&& forall|i: int| 0 <= i < 8 ==> fret_ok(#[trigger] self.frets@[i])
    }

    pub closed spec fn spec_string_count(self) -> nat {
        self.string_count as nat
    }

    pub closed spec fn spec_fret(self, i: int) -> Option<u8> {
        self.frets@[i]
    }

    /// A fingering from per-string frets.
    pub(crate) fn from_frets(frets: [Option<u8>; 8], string_count: usize) -> (f: Self)
        requires
            string_count <= 8,
            forall|i: int| 0 <= i < 8 ==> fret_ok(#[trigger] frets@[i]),
        ensures
            f.spec_string_count() == string_count,
            forall|i: int| 0 <= i < 8 ==> #[trigger] f.spec_fret(i) == frets@[i],
    {
        Fingering { frets, string_count }
    }

    /// Parses a six-string fingering such as `x32010` or `10-x-11-9-8-x`.
    pub fn parse(input: &str) -> (r: Result<Self, ChordClawError>)
        ensures
            r is Ok <==> fingering_frets(trimmed(input@), 6) is Some,
            r matches Ok(f) ==> f.spec_string_count() == 6 && forall|k: int|
                0 <= k < 6 ==> #[trigger] f.spec_fret(k) == fingering_frets(trimmed(input@), 6)->0[k],
            fingering_error(trimmed(input@), 6, input@.len()) matches Some(m) ==> (r matches Err(e) && e.spec_message()
                == m),
    {
        Self::parse_with_string_count(input, GUITAR_STRING_COUNT)
    }

    /// Parses a fingering with `string_count` strings.
    pub fn parse_with_string_count(input: &str, string_count: usize) -> (r: Result<
        Self,
        ChordClawError,
    >)
        ensures
            r is Ok <==> supported_count(string_count as int) && fingering_frets(
                trimmed(input@),
                string_count as nat,
            ) is Some,
            r matches Ok(f) ==> f.spec_string_count() == string_count && forall|k: int|
                0 <= k < string_count ==> #[trigger] f.spec_fret(k) == fingering_frets(
                    trimmed(input@),
                    string_count as nat,
                )->0[k],
            fingering_error(trimmed(input@), string_count as nat, input@.len()) matches Some(m) ==> (r matches Err(e)
                && e.spec_message() == m),
    {
        proof {
            reveal(fingering_error);
        }
        validate_exact_string_count(string_count)?;
        let raw = str_to_chars(input);
        let (start, end) = trim_bounds(raw.as_slice());
        let ghost text = trimmed(input@);
        assert(raw@.subrange(start as int, end as int) == text);
        if contains_char(raw.as_slice(), start, end, '-') {
            proof {
                let i = choose|i: int| start <= i < end && raw@[i] == '-';
                assert(text[i - start] == '-');
            }
            let r = parse_dashed_fingering(raw.as_slice(), start, end, string_count);
            proof {
                assert(end - start <= raw@.len());
                let parts = dash_parts(text);
                if parts.len() == string_count && exists|k: int|
                    0 <= k < string_count && (forall|j: int| 0 <= j < k ==> dashed_fret(#[trigger] parts[j]) is Some)
                        && #[trigger] fret_over_range(parts[k]) is Some {
                    let k = choose|k: int|
                        0 <= k < string_count && (forall|j: int| 0 <= j < k ==> dashed_fret(#[trigger] parts[j]) is Some)
                            && #[trigger] fret_over_range(parts[k]) is Some;
                    assert(fret_over_range(parts[k]) is Some);
                }
            }
            r
        } else {
            proof {
                if text.contains('-') {
                    let i = choose|i: int| 0 <= i < text.len() && text[i] == '-';
                    assert(raw@[start + i] == '-');
                }
            }
            let r = parse_compact_fingering(raw.as_slice(), start, end, string_count);
            proof {
                if end - start == string_count && !(forall|k: int|
                    0 <= k < string_count ==> compact_fret(#[trigger] text[k]) is Some) {
                    let k = choose|k: int| 0 <= k < string_count && !(compact_fret(#[trigger] text[k]) is Some);
                    assert(text[k] == raw@[start + k]);
                }
                if end - start == string_count && (forall|k: int|
                    0 <= k < string_count ==> compact_fret(#[trigger] text[k]) is Some) {
                    assert forall|i: int| start <= i < end implies compact_fret(#[trigger] raw@[i]) is Some by {
                        assert(raw@[i] == text[i - start]);
                    }
                }
            }
            r
        }
    }

    /// Number of strings a fingering text describes, without reading frets.
    pub fn string_count_from_input(input: &str) -> (r: Result<usize, ChordClawError>)
        ensures
            r is Ok <==> supported_count(fingering_width(trimmed(input@)) as int),
            r matches Ok(n) ==> n == fingering_width(trimmed(input@)),
    {
        let raw = str_to_chars(input);
        let (start, end) = trim_bounds(raw.as_slice());
        let ghost text = trimmed(input@);
        assert(raw@.subrange(start as int, end as int) == text);
        proof {
            lemma_dash_parts_len(text);
            if text.contains('-') {
                let i = choose|i: int| 0 <= i < text.len() && text[i] == '-';
                assert(raw@[start + i] == '-');
            }
        }
        let count = if contains_char(raw.as_slice(), start, end, '-') {
            proof {
                let i = choose|i: int| start <= i < end && raw@[i] == '-';
                assert(text[i - start] == '-');
            }
            let dashes = count_char(raw.as_slice(), start, end, '-');
            if dashes < usize::MAX {
                dashes + 1
            } else {
                dashes
            }
        } else {
            end - start
        };
        validate_count(count, None, "strings")?;
        Ok(count)
    }

    /// Number of strings.
    pub fn string_count(&self) -> (n: usize)
        ensures
            n == self.spec_string_count(),
            n <= 8,
    {
        proof {
            use_type_invariant(self);
        }
        self.string_count
    }

    /// Frets in string order.
    pub fn frets(&self) -> (v: Vec<Option<u8>>)
        ensures
            v@.len() == self.spec_string_count(),
            forall|i: int| 0 <= i < v@.len() ==> #[trigger] v@[i] == self.spec_fret(i),
    {
        proof {
            use_type_invariant(self);
        }
        let mut v: Vec<Option<u8>> = Vec::new();
        let mut i: usize = 0;
        while i < self.string_count
            invariant
                0 <= i <= self.string_count <= 8,
                v@.len() == i,
                forall|j: int| 0 <= j < i ==> #[trigger] v@[j] == self.spec_fret(j),
            decreases self.string_count - i,
        {
            v.push(self.frets[i]);
            i += 1;
        }
        v
    }

    /// The fret of `string`.
    pub fn fret(&self, string: usize) -> (f: Option<u8>)
        requires
            string < 8,
        ensures
            f == self.spec_fret(string as int),
            fret_ok(f),
    {
        proof {
            use_type_invariant(self);
        }
        self.frets[string]
    }

    /// Whether some fret needs two digits.
    pub open spec fn spec_has_double_digits(self) -> bool {
        exists|i: int| 0 <= i < self.spec_string_count() && (#[trigger] self.spec_fret(i) matches Some(v) && v > 9)
    }

    /// Compact text: one character per string, or the dashed form when a
    /// fret needs two digits.
    pub fn compact(&self) -> (s: String)
        ensures
            self.spec_has_double_digits() ==> s@ == fingering_text(self, true),
            !self.spec_has_double_digits() ==> s@ == fingering_text(self, false),
    {
        proof {
            use_type_invariant(self);
        }
        let mut double = false;
        let mut i: usize = 0;
        while i < self.string_count
            invariant
                0 <= i <= self.string_count <= 8,
                double == exists|j: int| 0 <= j < i && (#[trigger] self.spec_fret(j) matches Some(v) && v > 9),
            decreases self.string_count - i,
        {
            if let Some(v) = self.frets[i] {
                if v > 9 {
                    double = true;
                    assert(self.spec_fret(i as int) matches Some(w) && w > 9);
                }
            }
            proof {
                if !double {
                    assert forall|j: int| 0 <= j < i + 1 implies !(#[trigger] self.spec_fret(j) matches Some(w) && w > 9) by {
                        if j < i {
                            if self.spec_fret(j) matches Some(w) && w > 9 {
                                assert(exists|k: int| 0 <= k < i && (#[trigger] self.spec_fret(k) matches Some(w) && w > 9));
                            }
                        }
                    }
                }
            }
            i += 1;
        }
        self.text(double)
    }

    /// Text with frets separated by `-`, such as `x-3-2-0-1-0`.
    pub fn dashed(&self) -> (s: String)
        ensures
            s@ == fingering_text(self, true),
    {
        self.text(true)
    }

    fn text(&self, dashed: bool) -> (s: String)
        ensures
            s@ == fingering_text(self, dashed),
    {
        proof {
            use_type_invariant(self);
        }
        let mut out: Vec<char> = Vec::new();
        let mut i: usize = 0;
        while i < self.string_count
            invariant
                0 <= i <= self.string_count <= 8,
                out@ == fingering_text_prefix(self, dashed, i as nat),
            decreases self.string_count - i,
        {
            if dashed && i > 0 {
                out.push('-');
            }
            match self.frets[i] {
                Some(v) => push_decimal(&mut out, v as u32),
                None => out.push('x'),
            }
            i += 1;
        }
        chars_to_string(&out)
    }
}

impl Clone for Fingering {
    fn clone(&self) -> (f: Self)
        ensures
            f.spec_string_count() == self.spec_string_count(),
            forall|i: int| 0 <= i < 8 ==> #[trigger] f.spec_fret(i) == self.spec_fret(i),
    {
        proof {
            use_type_invariant(self);
        }
        Fingering { frets: self.frets, string_count: self.string_count }
    }
}

/// The text of one fret: its number, or `x` when muted.
pub open spec fn fret_text(f: Option<u8>) -> Seq<char> {
    match f {
        Some(v) => crate::text::decimal(v as nat),
        None => seq!['x'],
    }
}

/// Text of the first `n` strings, dashed or not.
pub open spec fn fingering_text_prefix(f: &Fingering, dashed: bool, n: nat) -> Seq<char>
    decreases n,
{
    if n == 0 {
        seq![]
    } else {
        let prev = fingering_text_prefix(f, dashed, (n - 1) as nat);
        let sep = if dashed && n > 1 { seq!['-'] } else { seq![] };
        prev + sep + fret_text(f.spec_fret(n - 1))
    }
}

/// The one character a fret under ten is written with.
pub open spec fn fret_char(f: Option<u8>) -> char {
    match f {
        Some(v) => crate::text::digit_char(v as nat),
        None => 'x',
    }
}

/// Compact text of frets under ten is one character per string.
proof fn lemma_compact_text_chars(f: &Fingering, k: nat)
    requires
        k <= f.spec_string_count(),
        forall|i: int| 0 <= i < k ==> (#[trigger] f.spec_fret(i) matches Some(v) ==> v <= 9),
    ensures
        fingering_text_prefix(f, false, k).len() == k,
        forall|i: int| 0 <= i < k ==> #[trigger] fingering_text_prefix(f, false, k)[i] == fret_char(f.spec_fret(i)),
    decreases k,
{
    if k > 0 {
        lemma_compact_text_chars(f, (k - 1) as nat);
        let prev = fingering_text_prefix(f, false, (k - 1) as nat);
        let last = f.spec_fret(k - 1);
        assert(fret_text(last) =~= seq![fret_char(last)]);
        assert(fingering_text_prefix(f, false, k) =~= prev.push(fret_char(last)));
    }
}

/// A fret's character reads back as the fret.
proof fn lemma_fret_char_reads_back(f: Option<u8>)
    requires
        f matches Some(v) ==> v <= 9,
    ensures
        compact_fret(fret_char(f)) == Some(f),
        !is_space(fret_char(f)),
        fret_char(f) != '-',
{
    if let Some(v) = f {
        assert(v == 0 || v == 1 || v == 2 || v == 3 || v == 4 || v == 5 || v == 6 || v == 7 || v == 8 || v == 9);
    }
}

/// A fingering without two-digit frets reads back from its compact text.
pub proof fn lemma_compact_text_reads_back(f: Fingering)
    requires
        !f.spec_has_double_digits(),
    ensures
        fingering_frets(trimmed(fingering_text(&f, false)), f.spec_string_count()) == Some(
            Seq::new(f.spec_string_count(), |k: int| f.spec_fret(k)),
        ),
{
    let n = f.spec_string_count();
    let t = fingering_text(&f, false);
    assert forall|i: int| 0 <= i < n implies (#[trigger] f.spec_fret(i) matches Some(v) ==> v <= 9) by {
        if let Some(v) = f.spec_fret(i) {
            if v > 9 {
                assert(f.spec_has_double_digits());
            }
        }
    }
    lemma_compact_text_chars(&f, n);
    assert forall|i: int| 0 <= i < n implies compact_fret(#[trigger] t[i]) == Some(f.spec_fret(i)) && !is_space(t[i])
        && t[i] != '-' by {
        lemma_fret_char_reads_back(f.spec_fret(i));
    }
    if n > 0 {
        assert(!is_space(t[0]));
        assert(!is_space(t.last()));
    }
    assert(trim_start_len(t) == 0);
    assert(trim_end_len(t.skip(0)) == 0) by {
        assert(t.skip(0) =~= t);
    }
    assert(trimmed(t) =~= t);
    assert(!t.contains('-'));
    assert(Seq::new(n, |k: int| compact_fret(t[k])->0) =~= Seq::new(n, |k: int| f.spec_fret(k)));
}

/// Text of all strings, dashed or not.
pub open spec fn fingering_text(f: &Fingering, dashed: bool) -> Seq<char> {
    fingering_text_prefix(f, dashed, f.spec_string_count())
}

fn contains_char(s: &[char], start: usize, end: usize, c: char) -> (r: bool)
    requires
        start <= end <= s@.len(),
    ensures
        r == exists|i: int| start <= i < end && s@[i] == c,
{
    let mut i = start;
    while i < end
        invariant
            start <= i <= end <= s@.len(),
            forall|j: int| start <= j < i ==> s@[j] != c,
        decreases end - i,
    {
        if s[i] == c {
            return true;
        }
        i += 1;
    }
    false
}

/// Number of occurrences of `c` in `s`.
pub open spec fn char_count(s: Seq<char>, c: char) -> nat
    decreases s.len(),
{
    if s.len() == 0 {
        0
    } else {
        char_count(s.drop_last(), c) + if s.last() == c {
            1nat
        } else {
            0nat
        }
    }
}

proof fn lemma_char_count_bound(s: Seq<char>, c: char)
    ensures
        char_count(s, c) <= s.len(),
    decreases s.len(),
{
    if s.len() > 0 {
        lemma_char_count_bound(s.drop_last(), c);
    }
}

proof fn lemma_char_count_prefix(s: Seq<char>, c: char, j: int)
    requires
        0 <= j <= s.len(),
    ensures
        char_count(s.take(j), c) <= char_count(s, c),
    decreases s.len() - j,
{
    if j < s.len() {
        lemma_char_count_prefix(s, c, j + 1);
        assert(s.take(j + 1).drop_last() == s.take(j));
    } else {
        assert(s.take(j) == s);
    }
}

fn count_char(s: &[char], start: usize, end: usize, c: char) -> (n: usize)
    requires
        start <= end <= s@.len(),
    ensures
        n == char_count(s@.subrange(start as int, end as int), c),
        n <= end - start,
{
    let mut n: usize = 0;
    let mut i = start;
    while i < end
        invariant
            start <= i <= end <= s@.len(),
            n == char_count(s@.subrange(start as int, i as int), c),
            n <= i - start,
        decreases end - i,
    {
        assert(s@.subrange(start as int, i + 1).drop_last() == s@.subrange(start as int, i as int));
        if s[i] == c {
            n += 1;
        }
        i += 1;
    }
    n
}

/// The pieces of `s` between dashes, as `str::split('-')` gives them.
pub open spec fn dash_parts(s: Seq<char>) -> Seq<Seq<char>>
    decreases s.len(),
{
    if s.len() == 0 {
        seq![Seq::<char>::empty()]
    } else {
        let parts = dash_parts(s.drop_last());
        if s.last() == '-' {
            parts.push(Seq::<char>::empty())
        } else {
            parts.update(parts.len() - 1, parts.last().push(s.last()))
        }
    }
}

proof fn lemma_dash_parts_len(s: Seq<char>)
    ensures
        dash_parts(s).len() == char_count(s, '-') + 1,
    decreases s.len(),
{
    if s.len() > 0 {
        lemma_dash_parts_len(s.drop_last());
    }
}

/// The finished pieces of a prefix are pieces of the whole text.
proof fn lemma_dash_parts_prefix(s: Seq<char>, j: int)
    requires
        0 <= j <= s.len(),
    ensures
        dash_parts(s.take(j)).len() <= dash_parts(s).len(),
        forall|k: int|
            0 <= k < dash_parts(s.take(j)).len() - 1 ==> #[trigger] dash_parts(s.take(j))[k]
                == dash_parts(s)[k],
    decreases s.len() - j,
{
    if j < s.len() {
        lemma_dash_parts_prefix(s, j + 1);
        assert(s.take(j + 1).drop_last() == s.take(j));
        lemma_dash_parts_len(s.take(j));
        let short = dash_parts(s.take(j));
        let long = dash_parts(s.take(j + 1));
        assert(short.len() <= long.len());
        assert forall|k: int| 0 <= k < short.len() - 1 implies #[trigger] short[k] == dash_parts(s)[k] by {
            assert(long[k] == short[k]);
        }
    } else {
        assert(s.take(j) == s);
    }
}

/// The fret a dashed fingering piece names when it is a number above the
/// standard range.
pub open spec fn fret_over_range(piece: Seq<char>) -> Option<int> {
    let t = trimmed(piece);
    if lowered(t) != lowered("x"@) && decimal_text_value(t, 255) is Some && decimal_text_value(t, 255)->0
        > MAX_STANDARD_FRET {
        Some(decimal_text_value(t, 255)->0)
    } else {
        None
    }
}

/// The message for a fret above the standard range.
pub open spec fn fret_range_message(v: int) -> Seq<char> {
    "invalid fret '"@ + decimal(v as nat) + "': standard guitar range is 0..=30"@
}

/// The fret a dashed fingering piece gives: `x` for a mute, else a decimal
/// fret within the standard range.
pub open spec fn dashed_fret(piece: Seq<char>) -> Option<Option<u8>> {
    let t = trimmed(piece);
    if lowered(t) == lowered("x"@) {
        Some(None)
    } else {
        match decimal_text_value(t, 255) {
            Some(v) => if v <= MAX_STANDARD_FRET {
                Some(Some(v as u8))
            } else {
                None
            },
            None => None,
        }
    }
}

/// The frets that the trimmed fingering text `text` gives for `count`
/// strings: dashed pieces when it holds a dash, else one character per string.
pub open spec fn fingering_frets(text: Seq<char>, count: nat) -> Option<Seq<Option<u8>>> {
    if text.contains('-') {
        let parts = dash_parts(text);
        if parts.len() == count && forall|k: int| 0 <= k < count ==> dashed_fret(#[trigger] parts[k]) is Some {
            Some(Seq::new(count, |k: int| dashed_fret(parts[k])->0))
        } else {
            None
        }
    } else {
        if text.len() == count && forall|k: int| 0 <= k < count ==> compact_fret(#[trigger] text[k]) is Some {
            Some(Seq::new(count, |k: int| compact_fret(text[k])->0))
        } else {
            None
        }
    }
}

/// The number of strings a trimmed fingering text describes.
pub open spec fn fingering_width(text: Seq<char>) -> nat {
    if text.contains('-') {
        dash_parts(text).len()
    } else {
        text.len()
    }
}

/// The fret a compact fingering character gives: a digit, or `x` for a mute.
pub open spec fn compact_fret(c: char) -> Option<Option<u8>> {
    if c == 'x' || c == 'X' {
        Some(None)
    } else if '0' <= c && c <= '9' {
        Some(Some(((c as u32) - ('0' as u32)) as u8))
    } else {
        None
    }
}

fn parse_compact_fingering(s: &[char], start: usize, end: usize, string_count: usize) -> (r: Result<
    Fingering,
    ChordClawError,
>)
    requires
        start <= end <= s@.len(),
        supported_count(string_count as int),
    ensures
        r is Ok <==> (end - start == string_count && forall|i: int| start <= i < end ==> compact_fret(#[trigger] s@[i]) is Some),
        r matches Ok(f) ==> f.spec_string_count() == string_count && forall|i: int| 0 <= i < string_count ==> Some(#[trigger] f.spec_fret(i)) == compact_fret(s@[start + i]),
        end - start != string_count ==> (r matches Err(e) && e.spec_message() == "expected "@ + decimal(
            string_count as nat,
        ) + seq![' '] + "strings"@ + ", got "@ + decimal((end - start) as nat)),
{
    validate_count(end - start, Some(string_count), "strings")?;
    let mut frets: [Option<u8>; 8] = [None; 8];
    let mut i: usize = 0;
    while i < string_count
        invariant
            0 <= i <= string_count <= 8,
            end - start == string_count,
            start <= end <= s@.len(),
            forall|k: int| 0 <= k < 8 ==> fret_ok(#[trigger] frets@[k]),
            forall|k: int| 0 <= k < i ==> Some(#[trigger] frets@[k]) == compact_fret(s@[start + k]),
            forall|k: int| start <= k < start + i ==> compact_fret(#[trigger] s@[k]) is Some,
        decreases string_count - i,
    {
        let ch = s[start + i];
        if ch == 'x' || ch == 'X' {
            frets[i] = None;
        } else if '0' <= ch && ch <= '9' {
            frets[i] = Some(((ch as u32) - ('0' as u32)) as u8);
        } else {
            let mut msg: Vec<char> = Vec::new();
            push_str(&mut msg, "invalid fret '");
            msg.push(ch);
            msg.push('\'');
            return Err(ChordClawError::from_chars(&msg));
        }
        i += 1;
    }
    Ok(Fingering { frets, string_count })
}

fn parse_dashed_token(s: &[char], lo: usize, hi: usize) -> (r: Result<Option<u8>, ChordClawError>)
    requires
        lo <= hi <= s@.len(),
    ensures
        match r {
            Ok(f) => dashed_fret(s@.subrange(lo as int, hi as int)) == Some(f),
            Err(_) => dashed_fret(s@.subrange(lo as int, hi as int)) is None,
        },
        r matches Ok(f) ==> fret_ok(f),
        fret_over_range(s@.subrange(lo as int, hi as int)) matches Some(v) ==> (r matches Err(e) && e.spec_message()
            == fret_range_message(v)),
{
    let (token_start, token_end) = trim_range(s, lo, hi);
    if range_equals_ignore_case(s, token_start, token_end, "x") {
        return Ok(None);
    }
    match parse_decimal_range(s, token_start, token_end, 255) {
        Some(v) => {
            let fret = v as u8;
            if fret > MAX_STANDARD_FRET {
                let mut msg: Vec<char> = Vec::new();
                push_str(&mut msg, "invalid fret '");
                push_decimal(&mut msg, fret as u32);
                push_str(&mut msg, "': standard guitar range is 0..=30");
                return Err(ChordClawError::from_chars(&msg));
            }
            Ok(Some(fret))
        },
        None => {
            let mut msg: Vec<char> = Vec::new();
            push_str(&mut msg, "invalid fret '");
            push_range(&mut msg, s, token_start, token_end);
            msg.push('\'');
            Err(ChordClawError::from_chars(&msg))
        },
    }
}

/// When piece `idx` is the first that fails, it is the only piece whose
/// earlier pieces all pass and that fails.
proof fn lemma_first_bad_piece(parts: Seq<Seq<char>>, idx: int, n: int)
    requires
        0 <= idx < n,
        parts.len() == n,
        forall|j: int| 0 <= j < idx ==> dashed_fret(#[trigger] parts[j]) is Some,
        dashed_fret(parts[idx]) is None,
    ensures
        forall|k: int|
            0 <= k < n && (forall|j: int| 0 <= j < k ==> dashed_fret(#[trigger] parts[j]) is Some)
                && #[trigger] fret_over_range(parts[k]) is Some ==> k == idx,
{
    assert forall|k: int|
        0 <= k < n && (forall|j: int| 0 <= j < k ==> dashed_fret(#[trigger] parts[j]) is Some)
            && #[trigger] fret_over_range(parts[k]) is Some implies k == idx by {
        if k < idx {
            assert(dashed_fret(parts[k]) is Some);
        } else if k > idx {
            assert(dashed_fret(parts[idx]) is Some);
        }
    }
}

fn parse_dashed_fingering(s: &[char], start: usize, end: usize, string_count: usize) -> (r: Result<
    Fingering,
    ChordClawError,
>)
    requires
        start <= end <= s@.len(),
        supported_count(string_count as int),
    ensures
        r is Ok <==> ({
            let parts = dash_parts(s@.subrange(start as int, end as int));
            parts.len() == string_count && forall|k: int|
                0 <= k < string_count ==> dashed_fret(#[trigger] parts[k]) is Some
        }),
        r matches Ok(f) ==> f.spec_string_count() == string_count && forall|k: int|
            0 <= k < string_count ==> Some(#[trigger] f.spec_fret(k)) == dashed_fret(
                dash_parts(s@.subrange(start as int, end as int))[k],
            ),
        end - start < usize::MAX && dash_parts(s@.subrange(start as int, end as int)).len() != string_count ==> (r matches Err(e)
            && e.spec_message() == "expected "@ + decimal(string_count as nat) + seq![' '] + "strings"@ + ", got "@
            + decimal(dash_parts(s@.subrange(start as int, end as int)).len())),
        forall|k: int|
            0 <= k < string_count && dash_parts(s@.subrange(start as int, end as int)).len() == string_count && (
            forall|j: int| 0 <= j < k ==> dashed_fret(#[trigger] dash_parts(s@.subrange(start as int, end as int))[j])
                is Some) && #[trigger] fret_over_range(dash_parts(s@.subrange(start as int, end as int))[k]) is Some
                ==> (r matches Err(e) && e.spec_message() == fret_range_message(
                fret_over_range(dash_parts(s@.subrange(start as int, end as int))[k])->0,
            )),
{
    let ghost text = s@.subrange(start as int, end as int);
    let dashes = count_char(s, start, end, '-');
    proof {
        lemma_dash_parts_len(text);
    }
    let parts = if dashes < usize::MAX { dashes + 1 } else { dashes };
    assert(end - start < usize::MAX ==> parts == dash_parts(text).len());
    validate_count(parts, Some(string_count), "strings")?;
    let mut frets: [Option<u8>; 8] = [None; 8];
    let mut idx: usize = 0;
    let mut part_start = start;
    let mut i = start;
    assert(s@.subrange(start as int, start as int) == Seq::<char>::empty());
    while i < end
        invariant
            start <= part_start <= i <= end <= s@.len(),
            text == s@.subrange(start as int, end as int),
            supported_count(string_count as int),
            string_count <= 8,
            char_count(text, '-') + 1 == string_count,
            dash_parts(text).len() == string_count,
            idx + 1 == dash_parts(s@.subrange(start as int, i as int)).len(),
            dash_parts(s@.subrange(start as int, i as int)).last() == s@.subrange(
                part_start as int,
                i as int,
            ),
            idx + 1 <= char_count(s@.subrange(start as int, i as int), '-') + 1,
            forall|k: int| 0 <= k < 8 ==> fret_ok(#[trigger] frets@[k]),
            forall|k: int|
                0 <= k < idx ==> Some(#[trigger] frets@[k]) == dashed_fret(dash_parts(text)[k]),
        decreases end - i,
    {
        let ghost before = s@.subrange(start as int, i as int);
        let ghost after = s@.subrange(start as int, i + 1);
        proof {
            assert(after.drop_last() == before);
            assert(after == text.take(i + 1 - start));
            lemma_char_count_prefix(text, '-', i + 1 - start);
            lemma_dash_parts_prefix(text, i + 1 - start);
            lemma_dash_parts_len(before);
        }
        if s[i] == '-' {
            proof {
                assert(dash_parts(after)[idx as int] == dash_parts(before)[idx as int]);
                assert(dash_parts(after)[idx as int] == dash_parts(text)[idx as int]);
            }
            let token = parse_dashed_token(s, part_start, i);
            match token {
                Ok(f) => {
                    frets[idx] = f;
                },
                Err(err) => {
                    proof {
                        assert forall|j: int| 0 <= j < idx implies dashed_fret(#[trigger] dash_parts(text)[j]) is Some by {
                            assert(Some(frets@[j]) == dashed_fret(dash_parts(text)[j]));
                        }
                        lemma_first_bad_piece(dash_parts(text), idx as int, string_count as int);
                    }
                    return Err(err);
                },
            }
            idx += 1;
            part_start = i + 1;
            assert(s@.subrange(part_start as int, i + 1) == Seq::<char>::empty());
        } else {
            assert(s@.subrange(part_start as int, i + 1) == s@.subrange(part_start as int, i as int).push(
                s@[i as int],
            ));
        }
        i += 1;
    }
    assert(s@.subrange(start as int, i as int) == text);
    assert(dash_parts(text)[idx as int] == s@.subrange(part_start as int, end as int));
    let token = parse_dashed_token(s, part_start, end);
    match token {
        Ok(f) => {
            frets[idx] = f;
        },
        Err(err) => {
            proof {
                assert forall|j: int| 0 <= j < idx implies dashed_fret(#[trigger] dash_parts(text)[j]) is Some by {
                    assert(Some(frets@[j]) == dashed_fret(dash_parts(text)[j]));
                }
                lemma_first_bad_piece(dash_parts(text), idx as int, string_count as int);
            }
            return Err(err);
        },
    }
    assert forall|k: int| 0 <= k < string_count implies Some(#[trigger] frets@[k]) == dashed_fret(
        dash_parts(text)[k],
    ) by {
        if k == idx {
        }
    }
    assert forall|k: int| 0 <= k < string_count implies dashed_fret(#[trigger] dash_parts(text)[k]) is Some by {
        assert(Some(frets@[k]) == dashed_fret(dash_parts(text)[k]));
    }
    Ok(Fingering { frets, string_count })
}

/// The message a fingering text gets for `count` strings, where it is one of
/// these: an unsupported count, the wrong number of strings, or a dashed
/// fret above the standard range with every piece before it valid.
/// `input_len` is the length of the text before trimming.
#[verifier::opaque]
pub open spec fn fingering_error(text: Seq<char>, count: nat, input_len: nat) -> Option<Seq<char>> {
    let parts = dash_parts(text);
    if !supported_count(count as int) {
        Some("expected 4, 6, 7, or 8 strings, got "@ + decimal(count))
    } else if !text.contains('-') && text.len() != count {
        Some("expected "@ + decimal(count) + seq![' '] + "strings"@ + ", got "@ + decimal(text.len()))
    } else if text.contains('-') && input_len < usize::MAX && parts.len() != count {
        Some("expected "@ + decimal(count) + seq![' '] + "strings"@ + ", got "@ + decimal(parts.len()))
    } else if text.contains('-') && parts.len() == count && exists|k: int|
        0 <= k < count && (forall|j: int| 0 <= j < k ==> dashed_fret(#[trigger] parts[j]) is Some)
            && #[trigger] fret_over_range(parts[k]) is Some {
        let k = choose|k: int|
            0 <= k < count && (forall|j: int| 0 <= j < k ==> dashed_fret(#[trigger] parts[j]) is Some)
                && #[trigger] fret_over_range(parts[k]) is Some;
        Some(fret_range_message(fret_over_range(parts[k])->0))
    } else {
        None
    }
}

fn validate_exact_string_count(string_count: usize) -> (r: Result<(), ChordClawError>)
    ensures
        r is Ok <==> supported_count(string_count as int),
        r matches Err(e) ==> e.spec_message() == "expected 4, 6, 7, or 8 strings, got "@ + decimal(string_count as nat),
{
    if is_supported_string_count(string_count) {
        Ok(())
    } else {
        let mut msg: Vec<char> = Vec::new();
        push_str(&mut msg, "expected 4, 6, 7, or 8 strings, got ");
        push_usize(&mut msg, string_count);
        Err(ChordClawError::from_chars(&msg))
    }
}

fn validate_count(count: usize, expected: Option<usize>, label: &str) -> (r: Result<
    (),
    ChordClawError,
>)
    ensures
        r is Ok <==> match expected {
            Some(e) => count == e,
            None => supported_count(count as int),
        },
        expected is None && !supported_count(count as int) ==> (r matches Err(e) && e.spec_message()
            == "expected 4, 6, 7, or 8 "@ + label@ + ", got "@ + decimal(count as nat)),
        expected is Some && count != expected->0 ==> (r matches Err(e) && e.spec_message() == "expected "@
            + decimal(expected->0 as nat) + seq![' '] + label@ + ", got "@ + decimal(count as nat)),
{
    match expected {
        Some(e) => {
            if count != e {
                let mut msg: Vec<char> = Vec::new();
                push_str(&mut msg, "expected ");
                push_usize(&mut msg, e);
                msg.push(' ');
                push_str(&mut msg, label);
                push_str(&mut msg, ", got ");
                push_usize(&mut msg, count);
                Err(ChordClawError::from_chars(&msg))
            } else {
                Ok(())
            }
        },
        None => {
            if is_supported_string_count(count) {
                Ok(())
            } else {
                let mut msg: Vec<char> = Vec::new();
                push_str(&mut msg, "expected 4, 6, 7, or 8 ");
                push_str(&mut msg, label);
                push_str(&mut msg, ", got ");
                push_usize(&mut msg, count);
                Err(ChordClawError::from_chars(&msg))
            }
        },
    }
}

/// Whether the engine supports `count` strings.
pub fn is_supported_string_count(count: usize) -> (b: bool)
    ensures
        b == supported_count(count as int),
{
    count == UKULELE_STRING_COUNT || count == GUITAR_STRING_COUNT || count == GUITAR7_STRING_COUNT
        || count == GUITAR8_STRING_COUNT
}

/// A sounding string of a fingering.
#[derive(Copy, Clone, Debug, Eq, PartialEq)]
pub struct PlayedNote {
    pub string: usize,
    pub fret: u8,
    pub note: NoteName,
    pub pitch_class: u8,
}

/// The sounding notes of a fingering with their pitch-class set and bass.
#[derive(Clone, Debug, Eq, PartialEq)]
pub struct PlayedFingering {
    pub notes: Vec<PlayedNote>,
    pub set: PitchSet,
    pub bass: Option<PitchClass>,
}

/// `notes` are the sounding strings of `fingering` in string order, each
/// with its fret and the pitch class it sounds on `tuning`.
pub open spec fn played_in_order(notes: Seq<PlayedNote>, fingering: &Fingering, tuning: &Tuning) -> bool {
    &&& forall|i: int|
        0 <= i < notes.len() ==> (#[trigger] notes[i]).string < fingering.spec_string_count()
            && fingering.spec_fret(notes[i].string as int) == Some(notes[i].fret) && notes[i].pitch_class
            == pitch_mod(tuning.spec_open_pitch(notes[i].string as int) + notes[i].fret)
    &&& forall|i: int, j: int| 0 <= i < j < notes.len() ==> #[trigger] notes[i].string < #[trigger] notes[j].string
    &&& forall|s: int|
        0 <= s < fingering.spec_string_count() && #[trigger] fingering.spec_fret(s) is Some ==> exists|i: int|
            0 <= i < notes.len() && #[trigger] notes[i].string == s
}

/// Sounds `fingering` on `tuning`: each fretted string gives a note, the
/// pitch classes form a set, and the lowest absolute pitch is the bass.
#[verifier::rlimit(80)]
#[verifier::spinoff_prover]
pub fn play_fingering(fingering: &Fingering, tuning: &Tuning) -> (p: PlayedFingering)
    requires
        fingering.spec_string_count() == tuning.spec_string_count(),
    ensures
        p.set.wf(),
        forall|i: int| 0 <= i < p.notes@.len() ==> #[trigger] p.notes@[i].pitch_class < 12,
        forall|i: int| 0 <= i < p.notes@.len() ==> p.set.has(#[trigger] p.notes@[i].pitch_class as int),
        forall|q: int| p.set.has(q) ==> exists|i: int| 0 <= i < p.notes@.len() && #[trigger] p.notes@[i].pitch_class == q,
        (p.bass is Some) == (p.notes@.len() > 0),
        p.bass matches Some(b) ==> p.set.has(b.spec_value() as int),
        forall|i: int| 0 <= i < p.notes@.len() ==> (#[trigger] p.notes@[i]).string < fingering.spec_string_count() && fingering.spec_fret(p.notes@[i].string as int) == Some(p.notes@[i].fret),
        played_in_order(p.notes@, fingering, tuning),
{
    let n = fingering.string_count();
    let mut notes: Vec<PlayedNote> = Vec::new();
    let mut set = PitchSet::empty();
    let mut bass: Option<PitchClass> = None;
    let mut bass_pitch: i16 = i16::MAX;
    let mut string: usize = 0;
    while string < n
        invariant
            0 <= string <= n,
            n == fingering.spec_string_count(),
            n == tuning.spec_string_count(),
            n <= 8,
            set.wf(),
            forall|i: int| 0 <= i < notes@.len() ==> #[trigger] notes@[i].pitch_class < 12,
            forall|i: int| 0 <= i < notes@.len() ==> set.has(#[trigger] notes@[i].pitch_class as int),
            forall|q: int| set.has(q) ==> exists|i: int| 0 <= i < notes@.len() && #[trigger] notes@[i].pitch_class == q,
            (bass is Some) == (notes@.len() > 0),
            bass matches Some(b) ==> set.has(b.spec_value() as int),
            forall|i: int| 0 <= i < notes@.len() ==> (#[trigger] notes@[i]).string < string && fingering.spec_fret(notes@[i].string as int) == Some(notes@[i].fret),
            forall|i: int| 0 <= i < notes@.len() ==> (#[trigger] notes@[i]).pitch_class == pitch_mod(
                tuning.spec_open_pitch(notes@[i].string as int) + notes@[i].fret,
            ),
            forall|i: int, j: int| 0 <= i < j < notes@.len() ==> #[trigger] notes@[i].string < #[trigger] notes@[j].string,
            forall|s: int| 0 <= s < string && #[trigger] fingering.spec_fret(s) is Some ==> exists|i: int|
                0 <= i < notes@.len() && #[trigger] notes@[i].string == s,
        decreases n - string,
    {
        match fingering.fret(string) {
            None => {},
            Some(fret) => {
                let absolute = tuning.absolute_pitch(string, fret);
                let pitch = PitchClass::new(absolute);
                let ghost old_notes = notes@;
                set.insert(pitch);
                if absolute < bass_pitch || bass.is_none() {
                    bass_pitch = absolute;
                    bass = Some(pitch);
                }
                let name = NoteName::simple_for_pitch(pitch, false);
                let pv = pitch.value();
                notes.push(PlayedNote { string, fret, note: name, pitch_class: pv });
                proof {
                    assert(notes@.last().string == string);
                    assert forall|s: int| 0 <= s < string + 1 && #[trigger] fingering.spec_fret(s) is Some implies exists|i: int|
                        0 <= i < notes@.len() && #[trigger] notes@[i].string == s by {
                        if s < string {
                            let i = choose|i: int| 0 <= i < old_notes.len() && #[trigger] old_notes[i].string == s;
                            assert(notes@[i] == old_notes[i]);
                        } else {
                            assert(notes@[notes@.len() - 1].string == s);
                        }
                    }
                    assert forall|q: int| set.has(q) implies exists|i: int| 0 <= i < notes@.len() && #[trigger] notes@[i].pitch_class == q by {
                        if q == pv {
                            assert(notes@[notes@.len() - 1].pitch_class == q);
                        } else {
                            let i = choose|i: int| 0 <= i < old_notes.len() && #[trigger] old_notes[i].pitch_class == q;
                            assert(notes@[i].pitch_class == q);
                        }
                    }
                }
            },
        }
        string += 1;
    }
    PlayedFingering { notes, set, bass }
}

} // verus!
