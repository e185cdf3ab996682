use vstd::prelude::*;

use crate::bits::{bit16, bit64, set_bit16, test_bit16, test_bit64};
use crate::formula::{
    degree_mask, omission_mask, raw_tones_without_omissions, slots_from, tones_without_omissions,
};
use crate::notes::{accidental_chars, letter_of_char, note_text, push_range, NoteLetter, NoteName};
use crate::symbol::{
    add_bit, omission_bit, alteration_slot, slot_accidental, slot_alteration, slot_degree, slot_of, supported_alteration,
    add_piece, deferred_sus_text, harmony_text, sixth_text, lemma_rest_start, omissions_text, quality_text, special_half_dim, suffix_rest, suffix_text, push_alteration_prefix, Alteration, ChordSpec, Extension, Quality, Seventh,
};
use crate::text::{
    decimal, is_space, is_whitespace, push_chars, push_decimal, push_str, range_equals, str_to_chars,
};
use crate::{ChordClawError, ChordClawErrorKind};

verus! {

/// The ASCII spelling of a chart glyph: `♭`, `♯`, `𝄫`, `𝄪`, and the minus
/// and en dash signs; other characters stand for themselves.
pub open spec fn glyph_expansion(c: char) -> Seq<char> {
    if c == '\u{266d}' {
        seq!['b']
    } else if c == '\u{266f}' {
        seq!['#']
    } else if c == '\u{1d12b}' {
        seq!['b', 'b']
    } else if c == '\u{1d12a}' {
        seq!['#', '#']
    } else if c == '\u{2212}' || c == '\u{2013}' {
        seq!['-']
    } else {
        seq![c]
    }
}

/// `s` with every chart glyph replaced by its ASCII spelling.
pub open spec fn normalized_glyphs(s: Seq<char>) -> Seq<char>
    decreases s.len(),
{
    if s.len() == 0 {
        seq![]
    } else {
        normalized_glyphs(s.drop_last()) + glyph_expansion(s.last())
    }
}

/// Replaces chart glyphs with their ASCII spellings.
pub fn normalize_chart_glyphs(input: &Vec<char>) -> (out: Vec<char>)
    ensures
        out@ == normalized_glyphs(input@),
{
    let mut out: Vec<char> = Vec::new();
    let mut i: usize = 0;
    while i < input.len()
        invariant
            0 <= i <= input@.len(),
            out@ == normalized_glyphs(input@.take(i as int)),
        decreases input@.len() - i,
    {
        let ch = input[i];
        if ch == '\u{266d}' {
            out.push('b');
        } else if ch == '\u{266f}' {
            out.push('#');
        } else if ch == '\u{1d12b}' {
            out.push('b');
            out.push('b');
        } else if ch == '\u{1d12a}' {
            out.push('#');
            out.push('#');
        } else if ch == '\u{2212}' || ch == '\u{2013}' {
            out.push('-');
        } else {
            out.push(ch);
        }
        proof {
            let t = input@.take(i + 1);
            assert(t.drop_last() == input@.take(i as int));
            assert(t.last() == ch);
        }
        i += 1;
        assert(out@ =~= normalized_glyphs(input@.take(i as int)));
    }
    assert(input@.take(input@.len() as int) == input@);
    out
}

/// Number of leading copies of `c` in `s`.
pub open spec fn lead_run(s: Seq<char>, c: char) -> nat
    decreases s.len(),
{
    if s.len() > 0 && s[0] == c {
        1 + lead_run(s.drop_first(), c)
    } else {
        0
    }
}

/// The accidental that the characters after a note letter spell: the run
/// of sharps or of flats they start with, up to a change of kind.
pub open spec fn accidental_of(rest: Seq<char>) -> int {
    if rest.len() > 0 && rest[0] == '#' {
        lead_run(rest, '#') as int
    } else if rest.len() > 0 && rest[0] == 'b' {
        -(lead_run(rest, 'b') as int)
    } else {
        0
    }
}

/// The note that `t` starts with and its length in characters: a note
/// letter, then at most two sharps or at most two flats.
pub open spec fn note_prefix(t: Seq<char>) -> Option<(NoteName, int)> {
    if t.len() > 0 && letter_of_char(t[0]) is Some && -2 <= accidental_of(t.drop_first()) <= 2 {
        let a = accidental_of(t.drop_first());
        Some(
            (
                NoteName { letter: letter_of_char(t[0])->0, accidental: a as i8 },
                1 + if a < 0 {
                    -a
                } else {
                    a
                },
            ),
        )
    } else {
        None
    }
}

/// Text made of ASCII letters, sharps and flats has no chart glyphs.
proof fn lemma_plain_glyphs(s: Seq<char>)
    requires
        forall|i: int| 0 <= i < s.len() ==> (#[trigger] s[i] == '#' || s[i] == 'b' || ('A' <= s[i] && s[i] <= 'G')),
    ensures
        normalized_glyphs(s) == s,
    decreases s.len(),
{
    if s.len() > 0 {
        lemma_plain_glyphs(s.drop_last());
        assert(s.drop_last().push(s.last()) =~= s);
    }
}

/// A note's text reads back as the note: its glyphs are plain and its
/// prefix is the whole note.
pub proof fn lemma_note_text_reads_back(n: NoteName)
    requires
        -2 <= n.accidental <= 2,
    ensures
        normalized_glyphs(note_text(n)) == note_text(n),
        note_prefix(normalized_glyphs(note_text(n))) == Some((n, note_text(n).len() as int)),
{
    let t = note_text(n);
    let a = n.accidental as int;
    let rest = accidental_chars(a);
    assert(t.drop_first() =~= rest);
    assert forall|i: int| 0 <= i < t.len() implies (#[trigger] t[i] == '#' || t[i] == 'b' || ('A' <= t[i] && t[i]
        <= 'G')) by {
        if i > 0 {
            assert(t[i] == rest[i - 1]);
        }
    }
    lemma_plain_glyphs(t);
    if a > 0 {
        lemma_lead_run(rest, '#', a);
    } else if a < 0 {
        lemma_lead_run(rest, 'b', -a);
    }
    assert(letter_of_char(t[0]) == Some(n.letter));
}

proof fn lemma_lead_run(t: Seq<char>, c: char, m: int)
    requires
        0 <= m <= t.len(),
        forall|k: int| 0 <= k < m ==> #[trigger] t[k] == c,
    ensures
        lead_run(t, c) >= m,
        (m == t.len() || t[m] != c) ==> lead_run(t, c) == m,
    decreases m,
{
    if m > 0 {
        let u = t.drop_first();
        assert forall|k: int| 0 <= k < m - 1 implies #[trigger] u[k] == c by {
            assert(u[k] == t[k + 1]);
        }
        lemma_lead_run(u, c, m - 1);
        if m < t.len() {
            assert(u[m - 1] == t[m]);
        }
    }
}

/// A run of leading copies is no longer than the sequence.
proof fn lemma_lead_run_len(s: Seq<char>, c: char)
    ensures
        lead_run(s, c) <= s.len(),
    decreases s.len(),
{
    if s.len() > 0 {
        lemma_lead_run_len(s.drop_first(), c);
    }
}

/// A note at the start of `t` fits in `t`.
pub proof fn lemma_note_prefix_len(t: Seq<char>)
    ensures
        note_prefix(t) matches Some((_, m)) ==> 0 < m <= t.len(),
{
    if t.len() > 0 {
        lemma_lead_run_len(t.drop_first(), '#');
        lemma_lead_run_len(t.drop_first(), 'b');
    }
}

/// Reads a note name at `start`: a letter, then sharps or flats of one kind.
///
/// A change of accidental kind ends the note; more than two accidentals is
/// an error.
pub fn parse_note_prefix(s: &[char], start: usize, end: usize) -> (r: Result<
    (NoteName, usize),
    ChordClawError,
>)
    requires
        start <= end <= s@.len(),
    ensures
        match r {
            Ok((n, next)) => note_prefix(s@.subrange(start as int, end as int)) == Some(
                (n, next - start),
            ),
            Err(_) => note_prefix(s@.subrange(start as int, end as int)) is None,
        },
        (start == end || letter_of_char(s@[start as int]) is None) ==> r is Err,
        r matches Ok((n, next)) ==> start < next <= end && Some(n.letter) == letter_of_char(
            s@[start as int],
        ) && -2 <= n.accidental <= 2 && next - start - 1 == (if n.accidental < 0 {
            -n.accidental
        } else {
            n.accidental as int
        }),
        r matches Ok((n, next)) ==> forall|i: int| start < i < next ==> (#[trigger] s@[i] == '#'
            || s@[i] == 'b') && (s@[i] == '#' <==> n.accidental > 0),
{
    if start == end {
        let mut msg: Vec<char> = Vec::new();
        push_str(&mut msg, "empty note");
        return Err(ChordClawError::from_chars(&msg));
    }
    let first = s[start];
    let letter = match NoteLetter::from_ascii(first) {
        Some(l) => l,
        None => {
            let mut msg: Vec<char> = Vec::new();
            push_str(&mut msg, "invalid note root '");
            msg.push(first);
            msg.push('\'');
            return Err(ChordClawError::from_chars(&msg));
        },
    };
    let mut accidental: i8 = 0;
    let mut kind: Option<char> = None;
    let mut i = start + 1;
    while i < end
        invariant
            start < i <= end <= s@.len(),
            -2 <= accidental <= 2,
            i - start - 1 == (if accidental < 0 { -accidental } else { accidental as int }),
            kind is None <==> accidental == 0,
            kind == Some('#') ==> accidental > 0,
            kind == Some('b') ==> accidental < 0,
            kind is Some ==> kind == Some('#') || kind == Some('b'),
            forall|k: int| start < k < i ==> (#[trigger] s@[k] == '#' || s@[k] == 'b') && (s@[k]
                == '#' <==> accidental > 0),
        ensures
            start < i <= end,
            i == end || !(s@[i as int] == '#' || s@[i as int] == 'b') || (kind matches Some(k)
                && s@[i as int] != k),
        decreases end - i,
    {
        let ch = s[i];
        if ch == '#' || ch == 'b' {
            if let Some(k) = kind {
                if k != ch {
                    break;
                }
            }
            kind = Some(ch);
            let next: i8 = if ch == '#' { accidental + 1 } else { accidental - 1 };
            if next > 2 || next < -2 {
                proof {
                    let rest = s@.subrange(start as int, end as int).drop_first();
                    assert forall|k: int| 0 <= k < 3 implies #[trigger] rest[k] == ch by {
                        assert(rest[k] == s@[start + 1 + k]);
                    }
                    lemma_lead_run(rest, ch, 3);
                }
                let mut msg: Vec<char> = Vec::new();
                push_str(&mut msg, "too many accidentals in note '");
                push_chars(&mut msg, s);
                msg.push('\'');
                return Err(ChordClawError::from_chars(&msg));
            }
            accidental = next;
            i += 1;
        } else {
            break;
        }
    }
    proof {
        let t = s@.subrange(start as int, end as int);
        let rest = t.drop_first();
        let m = i - start - 1;
        if m > 0 {
            let c = s@[start + 1];
            assert(rest[0] == c);
            assert forall|k: int| 0 <= k < m implies #[trigger] rest[k] == c by {
                assert(rest[k] == s@[start + 1 + k]);
            }
            if m < rest.len() {
                assert(rest[m] == s@[i as int]);
            }
            lemma_lead_run(rest, c, m);
        } else {
            if rest.len() > 0 {
                assert(rest[0] == s@[i as int]);
            }
        }
    }
    Ok((NoteName { letter, accidental }, i))
}


/// The slash at `idx` of `s[lo..hi]` is the slash of `6/9`.
pub open spec fn six_nine_slash(s: Seq<char>, lo: int, idx: int, hi: int) -> bool {
    idx > lo && idx + 1 < hi && s[idx - 1] == '6' && s[idx + 1] == '9'
}

/// Whether the slash at `idx` is the slash of `6/9`.
fn is_six_nine_slash(s: &[char], lo: usize, idx: usize, hi: usize) -> (b: bool)
    requires
        lo <= idx < hi <= s@.len(),
    ensures
        b == six_nine_slash(s@, lo as int, idx as int, hi as int),
{
    idx > lo && idx + 1 < hi && s[idx - 1] == '6' && s[idx + 1] == '9'
}

/// The slash at `e` in `s[lo..hi]` is a bass slash: not the slash of `6/9`.
pub open spec fn bass_slash(s: Seq<char>, lo: int, e: int, hi: int) -> bool {
    lo <= e < hi && s[e] == '/' && !six_nine_slash(s, lo, e, hi)
}

/// `s[lo..hi]` holds two bass slashes.
pub open spec fn two_bass_slashes(s: Seq<char>, lo: int, hi: int) -> bool {
    exists|i: int, j: int| i < j && #[trigger] bass_slash(s, lo, i, hi) && #[trigger] bass_slash(s, lo, j, hi)
}

/// `s[from..hi]` is exactly one note.
pub open spec fn note_fills(s: Seq<char>, from: int, hi: int) -> bool {
    note_prefix(s.subrange(from, hi)) matches Some((_, m)) && m == hi - from
}

/// Splits a slash bass off `s[lo..hi]`: returns where the descriptor ends
/// and the bass note, if any. The slash of `6/9` is not a bass slash.
pub fn split_bass(s: &[char], lo: usize, hi: usize) -> (r: Result<
    (usize, Option<NoteName>),
    ChordClawError,
>)
    requires
        lo <= hi <= s@.len(),
    ensures
        r matches Ok((e, b)) ==> lo <= e <= hi,
        r matches Ok((e, None)) ==> e == hi && forall|i: int|
            lo <= i < hi && #[trigger] s@[i] == '/' ==> six_nine_slash(s@, lo as int, i, hi as int),
        r matches Ok((e, Some(b))) ==> -2 <= b.accidental <= 2 && lo <= e < hi && s@[e as int] == '/'
            && !six_nine_slash(s@, lo as int, e as int, hi as int) && note_prefix(
            s@.subrange(e + 1, hi as int),
        ) == Some((b, hi - e - 1)),
        r matches Ok((e, Some(b))) ==> forall|i: int|
            lo <= i < hi && i != e && #[trigger] s@[i] == '/' ==> six_nine_slash(s@, lo as int, i, hi as int),
        r is Err ==> two_bass_slashes(s@, lo as int, hi as int) || exists|e: int|
            #[trigger] bass_slash(s@, lo as int, e, hi as int) && !note_fills(s@, e + 1, hi as int),
{
    let mut bass_idx: Option<usize> = None;
    let mut i = lo;
    while i < hi
        invariant
            lo <= i <= hi <= s@.len(),
            bass_idx matches Some(b) ==> lo <= b < i && s@[b as int] == '/' && !six_nine_slash(
                s@,
                lo as int,
                b as int,
                hi as int,
            ),
            forall|k: int|
                lo <= k < i && #[trigger] s@[k] == '/' && bass_idx != Some(k as usize) ==> six_nine_slash(
                    s@,
                    lo as int,
                    k,
                    hi as int,
                ),
        decreases hi - i,
    {
        if s[i] == '/' && !is_six_nine_slash(s, lo, i, hi) {
            if bass_idx.is_some() {
                proof {
                    let b = bass_idx->0 as int;
                    assert(bass_slash(s@, lo as int, b, hi as int));
                    assert(bass_slash(s@, lo as int, i as int, hi as int));
                }
                let mut msg: Vec<char> = Vec::new();
                push_str(&mut msg, "invalid slash chord syntax '");
                push_range(&mut msg, s, lo, hi);
                msg.push('\'');
                return Err(ChordClawError::from_chars(&msg));
            }
            bass_idx = Some(i);
        }
        i += 1;
    }
    let idx = match bass_idx {
        None => {
            return Ok((hi, None));
        },
        Some(idx) => idx,
    };
    let after = idx + 1;
    assert(bass_slash(s@, lo as int, idx as int, hi as int));
    if after == hi {
        let mut msg: Vec<char> = Vec::new();
        push_str(&mut msg, "slash chord is missing bass note");
        return Err(ChordClawError::from_chars(&msg));
    }
    if NoteLetter::from_ascii(s[after]).is_none() {
        let mut msg: Vec<char> = Vec::new();
        push_str(&mut msg, "invalid slash chord bass '");
        push_range(&mut msg, s, after, hi);
        msg.push('\'');
        return Err(ChordClawError::from_chars(&msg));
    }
    let (bass, bass_end) = parse_note_prefix(s, after, hi)?;
    if bass_end != hi {
        let mut msg: Vec<char> = Vec::new();
        push_str(&mut msg, "invalid note '");
        push_range(&mut msg, s, after, hi);
        msg.push('\'');
        return Err(ChordClawError::from_chars(&msg));
    }
    Ok((idx, Some(bass)))
}

/// Whether `s[pos..end]` starts with `p`.
pub fn starts_with_at(s: &[char], pos: usize, end: usize, p: &str) -> (r: bool)
    requires
        pos <= end <= s@.len(),
    ensures
        r == (pos + p@.len() <= end && s@.subrange(pos as int, pos + p@.len()) == p@),
{
    let pc = str_to_chars(p);
    if pc.len() > end - pos {
        return false;
    }
    range_equals(s, pos, pos + pc.len(), p)
}

/// `t[pos..end]` starts with `word`.
pub open spec fn matches_at(t: Seq<char>, pos: int, end: int, word: Seq<char>) -> bool {
    pos + word.len() <= end && t.subrange(pos, pos + word.len()) == word
}

/// The end of the first non-empty word of `words` that `t[pos..end]` starts
/// with.
pub open spec fn first_match(t: Seq<char>, pos: int, end: int, words: Seq<Seq<char>>) -> Option<int>
    decreases words.len(),
{
    if words.len() == 0 {
        None
    } else if words[0].len() > 0 && matches_at(t, pos, end, words[0]) {
        Some(pos + words[0].len())
    } else {
        first_match(t, pos, end, words.drop_first())
    }
}

/// A found word ends past `pos` and within `end`.
proof fn lemma_first_match_bounds(t: Seq<char>, pos: int, end: int, words: Seq<Seq<char>>)
    ensures
        first_match(t, pos, end, words) matches Some(n) ==> pos < n <= end,
    decreases words.len(),
{
    if words.len() > 0 {
        lemma_first_match_bounds(t, pos, end, words.drop_first());
    }
}

/// The characters of each string.
pub open spec fn str_words(words: Seq<&str>) -> Seq<Seq<char>> {
    words.map_values(|w: &str| w@)
}

/// Position after the first non-empty prefix of `prefixes` that `s[pos..end]`
/// starts with.
pub fn take_prefix(s: &[char], pos: usize, end: usize, prefixes: &[&str]) -> (r: Option<usize>)
    requires
        pos <= end <= s@.len(),
    ensures
        r is None <==> first_match(s@, pos as int, end as int, str_words(prefixes@)) is None,
        r matches Some(next) ==> first_match(s@, pos as int, end as int, str_words(prefixes@)) == Some(
            next as int,
        ),
        r matches Some(next) ==> pos < next <= end,
{
    let ghost words = str_words(prefixes@);
    proof {
        lemma_first_match_bounds(s@, pos as int, end as int, words);
        assert(words.skip(0) =~= words);
    }
    let mut k: usize = 0;
    while k < prefixes.len()
        invariant
            0 <= k <= prefixes@.len(),
            pos <= end <= s@.len(),
            words == str_words(prefixes@),
            first_match(s@, pos as int, end as int, words) == first_match(
                s@,
                pos as int,
                end as int,
                words.skip(k as int),
            ),
        decreases prefixes@.len() - k,
    {
        let p = prefixes[k];
        assert(words.skip(k as int)[0] == p@);
        assert(words.skip(k as int).drop_first() =~= words.skip(k + 1));
        if starts_with_at(s, pos, end, p) {
            let n = str_to_chars(p).len();
            if n > 0 {
                return Some(pos + n);
            }
        }
        k += 1;
    }
    None
}

/// The word lists of the descriptor grammar, each tried in its order.
#[derive(Copy, Clone, Debug, Eq, PartialEq, Structural)]
pub enum DescriptorWords {
    /// A major-seventh extension at the start.
    MajorExtension,
    /// The word for major.
    MajorWord,
    /// The marks of minor.
    MinorWord,
    /// The letter for major.
    MajorLetter,
    /// The marks of diminished.
    Diminished,
    /// The marks of augmented.
    Augmented,
    /// A suspended second.
    Sus2,
    /// A suspended fourth.
    Sus4,
    /// A power chord.
    Power,
    /// A half-diminished seventh.
    HalfDiminishedSeventh,
    /// The half-diminished sign.
    HalfDiminished,
    /// The altered dominant.
    Alt,
    /// A major thirteenth.
    Major13,
    /// A major eleventh.
    Major11,
    /// A major ninth.
    Major9,
    /// A major seventh.
    Major7,
    /// An added thirteenth.
    Add13,
    /// An added eleventh.
    Add11,
    /// An added ninth.
    Add9,
    /// An omitted fifth.
    No5,
    /// An omitted third.
    No3,
    /// An omitted root.
    No1,
    /// A thirteenth.
    Thirteen,
    /// An eleventh.
    Eleven,
    /// A ninth.
    Nine,
    /// A six-nine.
    SixNine,
    /// A seventh.
    Seven,
    /// A sixth.
    Six,
    /// Any word a parenthesized group may hold.
    Token,
}

/// The words of a list.
pub open spec fn descriptor_words(w: DescriptorWords) -> Seq<Seq<char>> {
    str_words(match w {
        DescriptorWords::MajorExtension => seq!["maj13", "Maj13", "MAJ13", "M13", "\u{394}13", "\u{25b3}13", "maj11", "Maj11", "MAJ11", "M11", "\u{394}11", "\u{25b3}11", "maj9", "Maj9", "MAJ9", "M9", "\u{394}9", "\u{25b3}9", "maj7", "Maj7", "MAJ7", "M7", "\u{394}7", "\u{25b3}7", "\u{394}", "\u{25b3}"],
        DescriptorWords::MajorWord => seq!["maj", "Maj", "MAJ"],
        DescriptorWords::MinorWord => seq!["min", "Min", "MIN", "m", "-"],
        DescriptorWords::MajorLetter => seq!["M"],
        DescriptorWords::Diminished => seq!["dim", "Dim", "DIM", "o", "\u{b0}"],
        DescriptorWords::Augmented => seq!["aug", "Aug", "AUG", "+"],
        DescriptorWords::Sus2 => seq!["sus2", "Sus2", "SUS2"],
        DescriptorWords::Sus4 => seq!["sus4", "Sus4", "SUS4", "sus", "Sus", "SUS"],
        DescriptorWords::Power => seq!["5"],
        DescriptorWords::HalfDiminishedSeventh => seq!["\u{f8}7", "\u{d8}7"],
        DescriptorWords::HalfDiminished => seq!["\u{f8}", "\u{d8}"],
        DescriptorWords::Alt => seq!["alt", "Alt", "ALT"],
        DescriptorWords::Major13 => seq!["maj13", "Maj13", "MAJ13", "M13", "\u{394}13", "\u{25b3}13"],
        DescriptorWords::Major11 => seq!["maj11", "Maj11", "MAJ11", "M11", "\u{394}11", "\u{25b3}11"],
        DescriptorWords::Major9 => seq!["maj9", "Maj9", "MAJ9", "M9", "\u{394}9", "\u{25b3}9"],
        DescriptorWords::Major7 => seq!["maj7", "Maj7", "MAJ7", "M7", "\u{394}7", "\u{25b3}7", "\u{394}", "\u{25b3}"],
        DescriptorWords::Add13 => seq!["add13"],
        DescriptorWords::Add11 => seq!["add11", "add4"],
        DescriptorWords::Add9 => seq!["add9", "add2"],
        DescriptorWords::No5 => seq!["omit5", "no5"],
        DescriptorWords::No3 => seq!["omit3", "no3"],
        DescriptorWords::No1 => seq!["omit1", "no1"],
        DescriptorWords::Thirteen => seq!["13"],
        DescriptorWords::Eleven => seq!["11"],
        DescriptorWords::Nine => seq!["9"],
        DescriptorWords::SixNine => seq!["6/9", "69"],
        DescriptorWords::Seven => seq!["7"],
        DescriptorWords::Six => seq!["6"],
        DescriptorWords::Token => seq!["maj13", "Maj13", "MAJ13", "M13", "\u{394}13", "\u{25b3}13", "maj11", "Maj11", "MAJ11", "M11", "\u{394}11", "\u{25b3}11", "maj9", "Maj9", "MAJ9", "M9", "\u{394}9", "\u{25b3}9", "maj7", "Maj7", "MAJ7", "M7", "\u{394}7", "\u{25b3}7", "add13", "add11", "add4", "add9", "add2", "omit5", "omit3", "omit1", "no5", "no3", "no1", "sus2", "Sus2", "SUS2", "sus4", "Sus4", "SUS4", "sus", "Sus", "SUS", "alt", "Alt", "ALT", "\u{f8}7", "\u{d8}7", "\u{f8}", "\u{d8}", "13", "11", "9", "6/9", "69", "7", "6", "\u{394}", "\u{25b3}"],
    })
}

/// Position after the first word of list `w` that `s[pos..end]` starts with.
fn take_words(s: &[char], pos: usize, end: usize, w: DescriptorWords) -> (r: Option<usize>)
    requires
        pos <= end <= s@.len(),
    ensures
        r is None <==> first_match(s@, pos as int, end as int, descriptor_words(w)) is None,
        r matches Some(next) ==> first_match(s@, pos as int, end as int, descriptor_words(w)) == Some(
            next as int,
        ),
        r matches Some(next) ==> pos < next <= end,
{
    let words: &[&str] = match w {
        DescriptorWords::MajorExtension => &["maj13", "Maj13", "MAJ13", "M13", "\u{394}13", "\u{25b3}13", "maj11", "Maj11", "MAJ11", "M11", "\u{394}11", "\u{25b3}11", "maj9", "Maj9", "MAJ9", "M9", "\u{394}9", "\u{25b3}9", "maj7", "Maj7", "MAJ7", "M7", "\u{394}7", "\u{25b3}7", "\u{394}", "\u{25b3}"],
        DescriptorWords::MajorWord => &["maj", "Maj", "MAJ"],
        DescriptorWords::MinorWord => &["min", "Min", "MIN", "m", "-"],
        DescriptorWords::MajorLetter => &["M"],
        DescriptorWords::Diminished => &["dim", "Dim", "DIM", "o", "\u{b0}"],
        DescriptorWords::Augmented => &["aug", "Aug", "AUG", "+"],
        DescriptorWords::Sus2 => &["sus2", "Sus2", "SUS2"],
        DescriptorWords::Sus4 => &["sus4", "Sus4", "SUS4", "sus", "Sus", "SUS"],
        DescriptorWords::Power => &["5"],
        DescriptorWords::HalfDiminishedSeventh => &["\u{f8}7", "\u{d8}7"],
        DescriptorWords::HalfDiminished => &["\u{f8}", "\u{d8}"],
        DescriptorWords::Alt => &["alt", "Alt", "ALT"],
        DescriptorWords::Major13 => &["maj13", "Maj13", "MAJ13", "M13", "\u{394}13", "\u{25b3}13"],
        DescriptorWords::Major11 => &["maj11", "Maj11", "MAJ11", "M11", "\u{394}11", "\u{25b3}11"],
        DescriptorWords::Major9 => &["maj9", "Maj9", "MAJ9", "M9", "\u{394}9", "\u{25b3}9"],
        DescriptorWords::Major7 => &["maj7", "Maj7", "MAJ7", "M7", "\u{394}7", "\u{25b3}7", "\u{394}", "\u{25b3}"],
        DescriptorWords::Add13 => &["add13"],
        DescriptorWords::Add11 => &["add11", "add4"],
        DescriptorWords::Add9 => &["add9", "add2"],
        DescriptorWords::No5 => &["omit5", "no5"],
        DescriptorWords::No3 => &["omit3", "no3"],
        DescriptorWords::No1 => &["omit1", "no1"],
        DescriptorWords::Thirteen => &["13"],
        DescriptorWords::Eleven => &["11"],
        DescriptorWords::Nine => &["9"],
        DescriptorWords::SixNine => &["6/9", "69"],
        DescriptorWords::Seven => &["7"],
        DescriptorWords::Six => &["6"],
        DescriptorWords::Token => &["maj13", "Maj13", "MAJ13", "M13", "\u{394}13", "\u{25b3}13", "maj11", "Maj11", "MAJ11", "M11", "\u{394}11", "\u{25b3}11", "maj9", "Maj9", "MAJ9", "M9", "\u{394}9", "\u{25b3}9", "maj7", "Maj7", "MAJ7", "M7", "\u{394}7", "\u{25b3}7", "add13", "add11", "add4", "add9", "add2", "omit5", "omit3", "omit1", "no5", "no3", "no1", "sus2", "Sus2", "SUS2", "sus4", "Sus4", "SUS4", "sus", "Sus", "SUS", "alt", "Alt", "ALT", "\u{f8}7", "\u{d8}7", "\u{f8}", "\u{d8}", "13", "11", "9", "6/9", "69", "7", "6", "\u{394}", "\u{25b3}"],
    };
    assert(str_words(words@) =~= descriptor_words(w));
    take_prefix(s, pos, end, words)
}

/// The alteration at `t[pos..end]`: one `+`, or one or two `b` or `#`, then
/// 13, 11, 9 or 5; with the position after it.
pub open spec fn alteration_at(t: Seq<char>, pos: int, end: int) -> Option<(Alteration, int)> {
    if pos >= end || !(t[pos] == 'b' || t[pos] == '#' || t[pos] == '+') {
        None
    } else {
        let step: int = if t[pos] == 'b' {
            -1
        } else {
            1
        };
        let doubled = t[pos] != '+' && pos + 1 < end && t[pos + 1] == t[pos];
        let accidental = if doubled {
            2 * step
        } else {
            step
        };
        let i = if doubled {
            pos + 2
        } else {
            pos + 1
        };
        if matches_at(t, i, end, seq!['1', '3']) {
            Some((Alteration { degree: 13, accidental: accidental as i8 }, i + 2))
        } else if matches_at(t, i, end, seq!['1', '1']) {
            Some((Alteration { degree: 11, accidental: accidental as i8 }, i + 2))
        } else if matches_at(t, i, end, seq!['9']) {
            Some((Alteration { degree: 9, accidental: accidental as i8 }, i + 1))
        } else if matches_at(t, i, end, seq!['5']) {
            Some((Alteration { degree: 5, accidental: accidental as i8 }, i + 1))
        } else {
            None
        }
    }
}

/// Reads an alteration such as `b9`, `#11`, `+5`, or `bb7`'s accidentals
/// followed by 13, 11, 9, or 5.
pub fn take_alteration(s: &[char], pos: usize, end: usize) -> (r: Option<(Alteration, usize)>)
    requires
        pos <= end <= s@.len(),
    ensures
        r is None <==> alteration_at(s@, pos as int, end as int) is None,
        r matches Some((a, next)) ==> alteration_at(s@, pos as int, end as int) == Some((a, next as int)),
        r matches Some((a, next)) ==> pos < next <= end && alteration_slot(
            a.degree as int,
            a.accidental as int,
        ) is Some,
{
    if pos == end {
        return None;
    }
    let first = s[pos];
    let step: i8 = if first == 'b' {
        -1
    } else if first == '#' || first == '+' {
        1
    } else {
        return None;
    };
    let mut accidental: i8 = step;
    let mut i = pos + 1;
    if first == 'b' || first == '#' {
        while i < end
            invariant
                pos < i <= end <= s@.len(),
                -2 <= accidental <= 2,
                accidental != 0,
                step == 1 || step == -1,
                step == 1 ==> accidental > 0,
                step == -1 ==> accidental < 0,
                first == s@[pos as int],
                first == 'b' || first == '#',
                step == (if first == 'b' {
                    -1i8
                } else {
                    1i8
                }),
                i == pos + 1 ==> accidental == step,
                i == pos + 2 ==> accidental == 2 * step && s@[pos + 1] == first,
                i <= pos + 2,
            ensures
                i == pos + 1 ==> accidental == step && (i == end || s@[pos + 1] != first),
                i == pos + 2 ==> accidental == 2 * step && s@[pos + 1] == first,
                pos < i <= pos + 2,
                i <= end,
                -2 <= accidental <= 2,
            decreases end - i,
        {
            if s[i] != first {
                break;
            }
            let next = accidental + step;
            if next > 2 || next < -2 {
                break;
            }
            accidental = next;
            i += 1;
        }
    }
    proof {
        reveal_strlit("13");
        reveal_strlit("11");
        reveal_strlit("9");
        reveal_strlit("5");
        assert("13"@ =~= seq!['1', '3']);
        assert("11"@ =~= seq!['1', '1']);
        assert("9"@ =~= seq!['9']);
        assert("5"@ =~= seq!['5']);
    }
    if starts_with_at(s, i, end, "13") {
        return Some((Alteration { degree: 13, accidental }, i + 2));
    }
    if starts_with_at(s, i, end, "11") {
        return Some((Alteration { degree: 11, accidental }, i + 2));
    }
    if starts_with_at(s, i, end, "9") {
        return Some((Alteration { degree: 9, accidental }, i + 1));
    }
    if starts_with_at(s, i, end, "5") {
        return Some((Alteration { degree: 5, accidental }, i + 1));
    }
    None
}

/// Everything `validate_descriptor` accepts.
pub open spec fn descriptor_valid(spec: ChordSpec) -> bool {
    &&& !(spec.quality == Quality::Power && (spec.seventh != Seventh::Absent || spec.extension is Some
        || spec.sixth || spec.alt || spec.add_bits != 0 || spec.alteration_bits != 0
        || spec.omission_bits != 0))
    &&& !(spec.alt && (spec.quality != Quality::Major || spec.seventh == Seventh::Major
        || spec.extension is Some || spec.sixth || spec.add_bits != 0 || spec.alteration_bits != 0
        || spec.omission_bits != 0))
    &&& forall|k: int| 0 <= k < 16 && #[trigger] bit16(spec.alteration_bits, k as u16) ==> supported_alteration(
        slot_degree(k),
        slot_accidental(k),
    )
    &&& forall|k: int| 0 <= k < 16 && #[trigger] bit16(spec.alteration_bits, k as u16) ==> !(
    spec.extension matches Some(e) && extension_degree_of(e) == slot_degree(k))
    &&& forall|k: int| 0 <= k < 16 && #[trigger] bit16(spec.alteration_bits, k as u16) ==> !spec.has_add(
        slot_degree(k),
    )
    &&& omissions_valid(spec)
}

/// Explicit omissions name present degrees and leave at least two tones.
pub open spec fn omissions_valid(spec: ChordSpec) -> bool {
    spec.omission_bits != 0 ==> {
        let raw = tones_without_omissions(spec);
        &&& (bit16(spec.omission_bits, 0) ==> raw & degree_mask(0) != 0)
        &&& (bit16(spec.omission_bits, 1) ==> raw & degree_mask(2) != 0)
        &&& (bit16(spec.omission_bits, 2) ==> raw & degree_mask(4) != 0)
        &&& slots_from(raw & !omission_mask(spec), 0).len() >= 2
    }
}

/// The degree an extension names.
pub open spec fn extension_degree_of(e: Extension) -> int {
    match e {
        Extension::Ninth => 9,
        Extension::Eleventh => 11,
        Extension::Thirteenth => 13,
    }
}

/// The degree an extension names.
pub fn extension_degree(e: Extension) -> (d: u8)
    ensures
        d == extension_degree_of(e),
{
    match e {
        Extension::Ninth => 9,
        Extension::Eleventh => 11,
        Extension::Thirteenth => 13,
    }
}

/// Number of set tone slots.
pub fn count_tones(bits: u64) -> (n: usize)
    ensures
        n == slots_from(bits, 0).len(),
{
    let mut n: usize = 0;
    let mut k: u64 = 0;
    while k < 50
        invariant
            0 <= k <= 50,
            n <= k,
            n + slots_from(bits, k as int).len() == slots_from(bits, 0).len(),
        decreases 50 - k,
    {
        if test_bit64(bits, k) {
            n += 1;
        }
        k += 1;
    }
    n
}

fn descriptor_error(text: &str) -> (e: ChordClawError)
    ensures
        e.spec_message() == text@,
        e.spec_kind() == ChordClawErrorKind::Data,
{
    let mut msg: Vec<char> = Vec::new();
    push_str(&mut msg, text);
    ChordClawError::from_chars(&msg)
}

/// Checks the descriptor rules that whole specs must satisfy.
pub fn validate_descriptor(spec: &ChordSpec) -> (r: Result<(), ChordClawError>)
    ensures
        r is Ok <==> descriptor_valid(*spec),
{
    if spec.quality == Quality::Power && (spec.seventh != Seventh::Absent || spec.extension.is_some()
        || spec.sixth || spec.alt || spec.add_bits != 0 || spec.alteration_bits != 0
        || spec.omission_bits != 0) {
        return Err(
            descriptor_error(
                "invalid chord descriptor: power chords cannot be combined with other chord tones",
            ),
        );
    }
    if spec.alt && (spec.quality != Quality::Major || spec.seventh == Seventh::Major
        || spec.extension.is_some() || spec.sixth || spec.add_bits != 0 || spec.alteration_bits
        != 0 || spec.omission_bits != 0) {
        return Err(
            descriptor_error(
                "invalid chord descriptor: alt is already a complete altered dominant set",
            ),
        );
    }
    let mut k: u16 = 0;
    while k < 16
        invariant
            0 <= k <= 16,
            forall|j: int| 0 <= j < k && #[trigger] bit16(spec.alteration_bits, j as u16) ==> supported_alteration(
                slot_degree(j),
                slot_accidental(j),
            ),
        decreases 16 - k,
    {
        if test_bit16(spec.alteration_bits, k) {
            let a = slot_alteration(k);
            if !crate::symbol::is_supported_alteration(a.degree, a.accidental) {
                proof {
                    assert(bit16(spec.alteration_bits, (k as int) as u16));
                }
                let mut msg: Vec<char> = Vec::new();
                push_str(&mut msg, "invalid chord descriptor: unsupported alteration '");
                push_alteration_prefix(&mut msg, a.accidental);
                push_decimal(&mut msg, a.degree as u32);
                msg.push('\'');
                return Err(ChordClawError::from_chars(&msg));
            }
        }
        k += 1;
    }
    if let Some(extension) = spec.extension {
        let degree = extension_degree(extension);
        let mut k: u16 = 0;
        while k < 16
            invariant
                0 <= k <= 16,
                degree == extension_degree_of(extension),
                spec.extension == Some(extension),
                forall|j: int| 0 <= j < k && #[trigger] bit16(spec.alteration_bits, j as u16) ==> slot_degree(j) != degree,
            decreases 16 - k,
        {
            if test_bit16(spec.alteration_bits, k) {
                let a = slot_alteration(k);
                if a.degree == degree {
                    proof {
                        assert(bit16(spec.alteration_bits, (k as int) as u16));
                    }
                    let mut msg: Vec<char> = Vec::new();
                    push_str(&mut msg, "invalid chord descriptor: extension ");
                    push_decimal(&mut msg, degree as u32);
                    push_str(&mut msg, " cannot also be altered");
                    return Err(ChordClawError::from_chars(&msg));
                }
            }
            k += 1;
        }
    }
    let mut k: u16 = 0;
    while k < 16
        invariant
            0 <= k <= 16,
            forall|j: int| 0 <= j < k && #[trigger] bit16(spec.alteration_bits, j as u16) ==> !spec.has_add(slot_degree(j)),
        decreases 16 - k,
    {
        if test_bit16(spec.alteration_bits, k) {
            let a = slot_alteration(k);
            if spec.contains_add(a.degree) {
                proof {
                    assert(bit16(spec.alteration_bits, (k as int) as u16));
                }
                let mut msg: Vec<char> = Vec::new();
                push_str(&mut msg, "invalid chord descriptor: added degree ");
                push_decimal(&mut msg, a.degree as u32);
                push_str(&mut msg, " cannot also be altered");
                return Err(ChordClawError::from_chars(&msg));
            }
        }
        k += 1;
    }
    validate_explicit_omissions(spec)
}

fn validate_explicit_omissions(spec: &ChordSpec) -> (r: Result<(), ChordClawError>)
    ensures
        r is Ok <==> omissions_valid(*spec),
{
    if spec.omission_bits == 0 {
        return Ok(());
    }
    let raw = raw_tones_without_omissions(spec);
    let checks: [(u16, u64, u8); 3] = [(0, 31u64 << 0u64, 1), (1, 31u64 << 10u64, 3), (2, 31u64 << 20u64, 5)];
    if test_bit16(spec.omission_bits, 0) && raw & (31u64 << 0u64) == 0 {
        return Err(omit_absent(1));
    }
    if test_bit16(spec.omission_bits, 1) && raw & (31u64 << 10u64) == 0 {
        return Err(omit_absent(3));
    }
    if test_bit16(spec.omission_bits, 2) && raw & (31u64 << 20u64) == 0 {
        return Err(omit_absent(5));
    }
    let mask = (if test_bit16(spec.omission_bits, 0) {
        31u64 << 0u64
    } else {
        0
    }) | (if test_bit16(spec.omission_bits, 1) {
        31u64 << 10u64
    } else {
        0
    }) | (if test_bit16(spec.omission_bits, 2) {
        31u64 << 20u64
    } else {
        0
    });
    if count_tones(raw & !mask) < 2 {
        return Err(
            descriptor_error("invalid chord descriptor: omissions remove too much harmonic content"),
        );
    }
    Ok(())
}

fn omit_absent(degree: u8) -> (e: ChordClawError)
    ensures
        e.spec_message() == "invalid chord descriptor: cannot omit absent degree "@ + decimal(
            degree as nat,
        ),
        e.spec_kind() == ChordClawErrorKind::Data,
{
    let mut msg: Vec<char> = Vec::new();
    push_str(&mut msg, "invalid chord descriptor: cannot omit absent degree ");
    push_decimal(&mut msg, degree as u32);
    ChordClawError::from_chars(&msg)
}

fn duplicate_descriptor(token: &str) -> (e: ChordClawError)
    ensures
        e.spec_message() == "invalid chord descriptor: duplicate or conflicting '"@ + token@ + seq![
            '\'',
        ],
        e.spec_kind() == ChordClawErrorKind::Data,
{
    let mut msg: Vec<char> = Vec::new();
    push_str(&mut msg, "invalid chord descriptor: duplicate or conflicting '");
    push_str(&mut msg, token);
    msg.push('\'');
    ChordClawError::from_chars(&msg)
}

/// Never both a sixth and an extension.
pub open spec fn parse_state_ok(spec: ChordSpec) -> bool {
    &&& !(spec.sixth && spec.extension is Some)
    &&& spec.wf()
}

/// A seventh, extension, sixth or `alt` is already set.
pub open spec fn numbered_harmony(spec: ChordSpec) -> bool {
    spec.alt || spec.sixth || spec.seventh != Seventh::Absent || spec.extension is Some
}

fn has_numbered_harmony(spec: &ChordSpec) -> (b: bool)
    ensures
        b == numbered_harmony(*spec),
{
    spec.alt || spec.sixth || spec.seventh != Seventh::Absent || spec.extension.is_some()
}

fn set_extension(spec: &mut ChordSpec, extension: Extension, seventh: Seventh, token: &str) -> (r:
    Result<(), ChordClawError>)
    requires
        parse_state_ok(*old(spec)),
    ensures
        parse_state_ok(*final(spec)),
        r is Err <==> numbered_harmony(*old(spec)),
        r is Ok ==> *final(spec) == (ChordSpec { seventh, extension: Some(extension), ..*old(spec) }),
{
    if has_numbered_harmony(spec) {
        return Err(duplicate_descriptor(token));
    }
    spec.seventh = seventh;
    spec.extension = Some(extension);
    Ok(())
}

fn set_seventh(spec: &mut ChordSpec, seventh: Seventh, token: &str) -> (r: Result<(), ChordClawError>)
    requires
        parse_state_ok(*old(spec)),
    ensures
        parse_state_ok(*final(spec)),
        r is Err <==> numbered_harmony(*old(spec)),
        r is Ok ==> *final(spec) == (ChordSpec { seventh, ..*old(spec) }),
{
    if has_numbered_harmony(spec) {
        return Err(duplicate_descriptor(token));
    }
    spec.seventh = seventh;
    Ok(())
}

fn set_sixth(spec: &mut ChordSpec) -> (r: Result<(), ChordClawError>)
    requires
        parse_state_ok(*old(spec)),
    ensures
        parse_state_ok(*final(spec)),
        r is Err <==> numbered_harmony(*old(spec)),
        r is Ok ==> *final(spec) == (ChordSpec { sixth: true, ..*old(spec) }),
{
    if has_numbered_harmony(spec) {
        return Err(duplicate_descriptor("6"));
    }
    spec.sixth = true;
    Ok(())
}

fn set_six_nine(spec: &mut ChordSpec) -> (r: Result<(), ChordClawError>)
    requires
        parse_state_ok(*old(spec)),
    ensures
        parse_state_ok(*final(spec)),
        r is Err <==> numbered_harmony(*old(spec)) || old(spec).has_add(9),
        r is Ok ==> *final(spec) == (ChordSpec {
            sixth: true,
            add_bits: added_bits(old(spec).add_bits, 9),
            ..*old(spec)
        }),
{
    if has_numbered_harmony(spec) {
        return Err(duplicate_descriptor("6/9"));
    }
    spec.sixth = true;
    push_unique_add(spec, 9, "add9")
}

/// `bits` with the bit of added degree `degree` set.
pub open spec fn added_bits(bits: u16, degree: int) -> u16 {
    bits | (1u16 << (add_bit(degree) as u16))
}

/// `bits` with the bit of omitted degree `degree` set.
pub open spec fn omitted_bits(bits: u16, degree: int) -> u16 {
    bits | (1u16 << (omission_bit(degree) as u16))
}

fn push_unique_add(spec: &mut ChordSpec, degree: u8, token: &str) -> (r: Result<(), ChordClawError>)
    requires
        parse_state_ok(*old(spec)),
        degree == 9 || degree == 11 || degree == 13,
    ensures
        parse_state_ok(*final(spec)),
        r is Err <==> old(spec).has_add(degree as int),
        r is Ok ==> *final(spec) == (ChordSpec {
            add_bits: added_bits(old(spec).add_bits, degree as int),
            ..*old(spec)
        }),
{
    if spec.contains_add(degree) {
        return Err(duplicate_descriptor(token));
    }
    let bit: u16 = if degree == 9 {
        0
    } else if degree == 11 {
        1
    } else {
        2
    };
    let old_bits = spec.add_bits;
    spec.add_bits = spec.add_bits | (1u16 << bit);
    proof {
        let nb = spec.add_bits;
        assert(nb == old_bits | (1u16 << bit));
        assert(nb < 8) by (bit_vector)
            requires
                old_bits < 8,
                bit < 3,
                nb == old_bits | (1u16 << bit),
        ;
    }
    Ok(())
}

fn push_unique_omission(spec: &mut ChordSpec, degree: u8, token: &str) -> (r: Result<
    (),
    ChordClawError,
>)
    requires
        parse_state_ok(*old(spec)),
        degree == 1 || degree == 3 || degree == 5,
    ensures
        parse_state_ok(*final(spec)),
        r is Err <==> old(spec).has_omission(degree as int),
        r is Ok ==> *final(spec) == (ChordSpec {
            omission_bits: omitted_bits(old(spec).omission_bits, degree as int),
            ..*old(spec)
        }),
{
    if spec.contains_omission(degree) {
        return Err(duplicate_descriptor(token));
    }
    let bit: u16 = if degree == 1 {
        0
    } else if degree == 3 {
        1
    } else {
        2
    };
    let old_bits = spec.omission_bits;
    spec.omission_bits = spec.omission_bits | (1u16 << bit);
    proof {
        let nb = spec.omission_bits;
        assert(nb == old_bits | (1u16 << bit));
        assert(nb < 8) by (bit_vector)
            requires
                old_bits < 8,
                bit < 3,
                nb == old_bits | (1u16 << bit),
        ;
    }
    Ok(())
}

fn set_quality(spec: &mut ChordSpec, explicit_quality: &mut bool, quality: Quality, token: &str) -> (r:
    Result<(), ChordClawError>)
    requires
        parse_state_ok(*old(spec)),
    ensures
        parse_state_ok(*final(spec)),
        r is Err <==> *old(explicit_quality),
        r is Ok ==> *final(spec) == (ChordSpec { quality, ..*old(spec) }) && *final(explicit_quality),
{
    if *explicit_quality {
        return Err(duplicate_descriptor(token));
    }
    spec.quality = quality;
    *explicit_quality = true;
    Ok(())
}

/// Nothing may precede the half-diminished sign.
pub open spec fn half_diminished_blocked(spec: ChordSpec, explicit_quality: bool) -> bool {
    explicit_quality || spec.seventh != Seventh::Absent || spec.extension is Some || spec.sixth
        || spec.alt || spec.add_bits != 0 || spec.alteration_bits != 0 || spec.omission_bits != 0
}

/// The half-diminished seventh: a minor seventh with a flat fifth.
pub open spec fn half_diminished_spec(spec: ChordSpec) -> ChordSpec {
    ChordSpec {
        quality: Quality::Minor,
        seventh: Seventh::Minor,
        alteration_bits: 1u16 << 1u16,
        ..spec
    }
}

fn set_half_diminished(spec: &mut ChordSpec, explicit_quality: &mut bool, token: &str) -> (r:
    Result<(), ChordClawError>)
    requires
        parse_state_ok(*old(spec)),
    ensures
        parse_state_ok(*final(spec)),
        r is Err <==> half_diminished_blocked(*old(spec), *old(explicit_quality)),
        r is Ok ==> *final(spec) == half_diminished_spec(*old(spec)) && *final(explicit_quality),
{
    if *explicit_quality || spec.seventh != Seventh::Absent || spec.extension.is_some() || spec.sixth
        || spec.alt || spec.add_bits != 0 || spec.alteration_bits != 0 || spec.omission_bits != 0 {
        return Err(duplicate_descriptor(token));
    }
    spec.quality = Quality::Minor;
    spec.seventh = Seventh::Minor;
    spec.alteration_bits = 1u16 << 1u16;
    *explicit_quality = true;
    Ok(())
}

/// The spec a half-diminished sign leaves, which a following 9, 11 or 13
/// extends.
pub open spec fn half_diminished_base(spec: ChordSpec) -> bool {
    spec.quality == Quality::Minor && spec.seventh == Seventh::Minor && spec.extension is None
        && !spec.sixth && !spec.alt && spec.add_bits == 0 && spec.omission_bits == 0
        && spec.alteration_bits == (1u16 << 1u16)
}

fn is_half_diminished_shorthand_base(spec: &ChordSpec) -> (b: bool)
    ensures
        b == half_diminished_base(*spec),
{
    spec.quality == Quality::Minor && spec.seventh == Seventh::Minor && spec.extension.is_none()
        && !spec.sixth && !spec.alt && spec.add_bits == 0 && spec.omission_bits == 0
        && spec.alteration_bits == (1u16 << 1u16)
}

fn set_extension_or_half_diminished_extension(
    spec: &mut ChordSpec,
    half_diminished_can_extend: &mut bool,
    extension: Extension,
    seventh: Seventh,
    token: &str,
) -> (r: Result<(), ChordClawError>)
    requires
        parse_state_ok(*old(spec)),
    ensures
        parse_state_ok(*final(spec)),
        *old(half_diminished_can_extend) && half_diminished_base(*old(spec)) ==> r is Ok
            && *final(spec) == (ChordSpec { extension: Some(extension), ..*old(spec) })
            && (*final(half_diminished_can_extend) == false),
        !(*old(half_diminished_can_extend) && half_diminished_base(*old(spec))) ==> (r is Err
            <==> numbered_harmony(*old(spec))) && (r is Ok ==> *final(spec) == (ChordSpec {
            seventh,
            extension: Some(extension),
            ..*old(spec)
        }) && *final(half_diminished_can_extend) == *old(half_diminished_can_extend)),
{
    if *half_diminished_can_extend && is_half_diminished_shorthand_base(spec) {
        spec.extension = Some(extension);
        *half_diminished_can_extend = false;
        return Ok(());
    }
    set_extension(spec, extension, seventh, token)
}

/// The seventh a bare 9, 11 or 13 implies.
pub open spec fn implied_seventh(quality: Quality) -> Seventh {
    if quality == Quality::Diminished {
        Seventh::Diminished
    } else {
        Seventh::Minor
    }
}

fn default_seventh_for_extension(quality: Quality) -> (s: Seventh)
    ensures
        s == implied_seventh(quality),
{
    if quality == Quality::Diminished {
        Seventh::Diminished
    } else {
        Seventh::Minor
    }
}

/// `bits` with the slot of alteration `a` set.
pub open spec fn altered_bits(bits: u16, a: Alteration) -> u16 {
    match alteration_slot(a.degree as int, a.accidental as int) {
        Some(k) => bits | (1u16 << (k as u16)),
        None => bits,
    }
}

/// Adds an alteration to the spec's set.
pub fn upsert_alteration(spec: &mut ChordSpec, a: Alteration)
    requires
        alteration_slot(a.degree as int, a.accidental as int) is Some,
    ensures
        final(spec).quality == old(spec).quality,
        final(spec).seventh == old(spec).seventh,
        final(spec).extension == old(spec).extension,
        final(spec).sixth == old(spec).sixth,
        final(spec).alt == old(spec).alt,
        final(spec).add_bits == old(spec).add_bits,
        final(spec).omission_bits == old(spec).omission_bits,
        forall|q: u16| q < 16 ==> #[trigger] bit16(final(spec).alteration_bits, q) == (bit16(
            old(spec).alteration_bits,
            q,
        ) || Some(q as int) == alteration_slot(a.degree as int, a.accidental as int)),
        final(spec).alteration_bits == altered_bits(old(spec).alteration_bits, a),
{
    if let Some(k) = slot_of(a.degree, a.accidental) {
        spec.alteration_bits = set_bit16(spec.alteration_bits, k);
    }
}

/// Settles the canonical form of a validated spec: a power chord has nothing
/// else, `alt` is a dominant seventh, and an extension drops a sixth.
pub fn normalize_spec(spec: &mut ChordSpec)
    requires
        parse_state_ok(*old(spec)),
    ensures
        parse_state_ok(*final(spec)),
        old(spec).quality == Quality::Power ==> final(spec).seventh == Seventh::Absent
            && final(spec).extension is None && !final(spec).sixth && !final(spec).alt
            && final(spec).add_bits == 0 && final(spec).alteration_bits == 0
            && final(spec).omission_bits == 0 && final(spec).quality == Quality::Power,
        old(spec).quality != Quality::Power && old(spec).alt ==> *final(spec) == (ChordSpec {
            quality: Quality::Major,
            seventh: Seventh::Minor,
            ..*old(spec)
        }),
        old(spec).quality != Quality::Power && !old(spec).alt ==> *final(spec) == *old(spec),
{
    if spec.quality == Quality::Power {
        spec.seventh = Seventh::Absent;
        spec.extension = None;
        spec.sixth = false;
        spec.alt = false;
        spec.add_bits = 0;
        spec.alteration_bits = 0;
        spec.omission_bits = 0;
        return;
    }
    if spec.alt {
        spec.quality = Quality::Major;
        spec.seventh = Seventh::Minor;
        return;
    }
    if spec.extension.is_some() {
        spec.sixth = false;
    }
}

/// The end of the descriptor word or alteration that `t[pos..end]` starts
/// with.
pub open spec fn token_end(t: Seq<char>, pos: int, end: int) -> Option<int> {
    match first_match(t, pos, end, descriptor_words(DescriptorWords::Token)) {
        Some(n) => Some(n),
        None => match alteration_at(t, pos, end) {
            Some((_, n)) => Some(n),
            None => None,
        },
    }
}

/// A token ends past `pos` and within `end`.
proof fn lemma_token_end_bounds(t: Seq<char>, pos: int, end: int)
    ensures
        token_end(t, pos, end) matches Some(n) ==> pos < n <= end,
        alteration_at(t, pos, end) matches Some((_, n)) ==> pos < n <= end,
{
    lemma_first_match_bounds(t, pos, end, descriptor_words(DescriptorWords::Token));
}

/// `t[pos..end]` splits into descriptor words and alterations.
pub open spec fn group_tokens(t: Seq<char>, pos: int, end: int) -> bool
    decreases end - pos,
{
    if pos >= end {
        true
    } else {
        match token_end(t, pos, end) {
            Some(n) => if pos < n <= end {
                group_tokens(t, n, end)
            } else {
                false
            },
            None => false,
        }
    }
}

/// `t[lo..hi]` holds no whitespace and no parenthesis.
pub open spec fn group_chars(t: Seq<char>, lo: int, hi: int) -> bool {
    forall|i: int| lo <= i < hi ==> !is_space(#[trigger] t[i]) && t[i] != '(' && t[i] != ')'
}

/// The position of the first `)` in `t[i..hi]`, or `hi`.
pub open spec fn close_paren(t: Seq<char>, i: int, hi: int) -> int
    decreases hi - i,
{
    if i >= hi {
        hi
    } else if t[i] == ')' {
        i
    } else {
        close_paren(t, i + 1, hi)
    }
}

/// The descriptor `t[i..hi]` with each parenthesized group opened: `None`
/// on whitespace, on a stray `)`, or on a group that is unclosed, empty, or
/// not a run of descriptor words and alterations.
pub open spec fn descriptor_text(t: Seq<char>, i: int, hi: int) -> Option<Seq<char>>
    decreases hi - i,
{
    if i >= hi {
        Some(seq![])
    } else if is_space(t[i]) || t[i] == ')' {
        None
    } else if t[i] == '(' {
        let j = close_paren(t, i + 1, hi);
        if j >= hi || j <= i + 1 || !group_chars(t, i + 1, j) || !group_tokens(t, i + 1, j) {
            None
        } else {
            match descriptor_text(t, j + 1, hi) {
                Some(rest) => Some(t.subrange(i + 1, j) + rest),
                None => None,
            }
        }
    } else {
        match descriptor_text(t, i + 1, hi) {
            Some(rest) => Some(seq![t[i]] + rest),
            None => None,
        }
    }
}

/// Removes parentheses around descriptor groups, rejecting whitespace and
/// malformed groups.
fn normalize_descriptor_text(s: &[char], lo: usize, hi: usize) -> (r: Result<
    Vec<char>,
    ChordClawError,
>)
    requires
        lo <= hi <= s@.len(),
    ensures
        r is Ok <==> descriptor_text(s@, lo as int, hi as int) is Some,
        r matches Ok(v) ==> descriptor_text(s@, lo as int, hi as int) == Some(v@),
{
    let mut out: Vec<char> = Vec::new();
    let mut i = lo;
    while i < hi
        invariant
            lo <= i <= hi <= s@.len(),
            descriptor_text(s@, lo as int, hi as int) == (match descriptor_text(s@, i as int, hi as int) {
                Some(rest) => Some(out@ + rest),
                None => None,
            }),
        decreases hi - i,
    {
        let ch = s[i];
        if is_whitespace(ch) {
            let mut msg: Vec<char> = Vec::new();
            push_str(&mut msg, "invalid chord descriptor: whitespace inside '");
            push_range(&mut msg, s, lo, hi);
            msg.push('\'');
            return Err(ChordClawError::from_chars(&msg));
        }
        if ch == '(' {
            let group_start = i + 1;
            let mut j = group_start;
            while j < hi && s[j] != ')'
                invariant
                    group_start <= j <= hi <= s@.len(),
                    close_paren(s@, group_start as int, hi as int) == close_paren(s@, j as int, hi as int),
                decreases hi - j,
            {
                j += 1;
            }
            assert(close_paren(s@, group_start as int, hi as int) == j);
            if j == hi {
                let mut msg: Vec<char> = Vec::new();
                push_str(&mut msg, "invalid chord descriptor: unclosed '(' in '");
                push_range(&mut msg, s, lo, hi);
                msg.push('\'');
                return Err(ChordClawError::from_chars(&msg));
            }
            if group_start == j || !group_chars_ok(s, group_start, j)
                || !parenthesized_descriptor_group_is_valid(s, group_start, j) {
                let mut msg: Vec<char> = Vec::new();
                push_str(&mut msg, "invalid chord descriptor group '(");
                push_range(&mut msg, s, group_start, j);
                push_str(&mut msg, ")'");
                return Err(ChordClawError::from_chars(&msg));
            }
            let ghost before = out@;
            let mut k = group_start;
            while k < j
                invariant
                    group_start <= k <= j < hi <= s@.len(),
                    out@ == before + s@.subrange(group_start as int, k as int),
                decreases j - k,
            {
                out.push(s[k]);
                assert(s@.subrange(group_start as int, k + 1) =~= s@.subrange(group_start as int, k as int).push(
                    s@[k as int],
                ));
                k += 1;
            }
            proof {
                match descriptor_text(s@, j + 1, hi as int) {
                    Some(rest) => {
                        assert(before + (s@.subrange(group_start as int, j as int) + rest) =~= out@ + rest);
                    },
                    None => {},
                }
            }
            i = j + 1;
        } else if ch == ')' {
            let mut msg: Vec<char> = Vec::new();
            push_str(&mut msg, "invalid chord descriptor: unmatched ')' in '");
            push_range(&mut msg, s, lo, hi);
            msg.push('\'');
            return Err(ChordClawError::from_chars(&msg));
        } else {
            let ghost before = out@;
            out.push(ch);
            proof {
                match descriptor_text(s@, i + 1, hi as int) {
                    Some(rest) => {
                        assert(before + (seq![ch] + rest) =~= out@ + rest);
                    },
                    None => {},
                }
            }
            i += 1;
        }
    }
    assert(out@ + Seq::<char>::empty() =~= out@);
    Ok(out)
}

/// Whether `s[lo..hi]` holds no whitespace and no parenthesis.
fn group_chars_ok(s: &[char], lo: usize, hi: usize) -> (b: bool)
    requires
        lo <= hi <= s@.len(),
    ensures
        b == group_chars(s@, lo as int, hi as int),
{
    let mut i = lo;
    while i < hi
        invariant
            lo <= i <= hi <= s@.len(),
            forall|k: int| lo <= k < i ==> !is_space(#[trigger] s@[k]) && s@[k] != '(' && s@[k] != ')',
        decreases hi - i,
    {
        if is_whitespace(s[i]) || s[i] == '(' || s[i] == ')' {
            return false;
        }
        i += 1;
    }
    true
}

/// Whether `s[lo..hi]` splits into descriptor words and alterations.
fn parenthesized_descriptor_group_is_valid(s: &[char], lo: usize, hi: usize) -> (b: bool)
    requires
        lo <= hi <= s@.len(),
    ensures
        b == group_tokens(s@, lo as int, hi as int),
{
    let mut i = lo;
    while i < hi
        invariant
            lo <= i <= hi <= s@.len(),
            group_tokens(s@, lo as int, hi as int) == group_tokens(s@, i as int, hi as int),
        decreases hi - i,
    {
        proof {
            lemma_token_end_bounds(s@, i as int, hi as int);
        }
        match take_descriptor_token(s, i, hi) {
            Some(next) => {
                i = next;
            },
            None => {
                return false;
            },
        }
    }
    true
}

/// Position after the descriptor word or alteration at `s[pos..end]`.
fn take_descriptor_token(s: &[char], pos: usize, end: usize) -> (r: Option<usize>)
    requires
        pos <= end <= s@.len(),
    ensures
        r is None <==> token_end(s@, pos as int, end as int) is None,
        r matches Some(next) ==> token_end(s@, pos as int, end as int) == Some(next as int),
        r matches Some(next) ==> pos < next <= end,
{
    if let Some(next) = take_words(s, pos, end, DescriptorWords::Token) {
        return Some(next);
    }
    match take_alteration(s, pos, end) {
        Some((_, next)) => Some(next),
        None => None,
    }
}

/// A token of the descriptor grammar: a word of one of the lists, or an
/// alteration.
#[derive(Copy, Clone, Debug, Eq, PartialEq, Structural)]
pub enum DescriptorToken {
    Word(DescriptorWords),
    Altered(Alteration),
}

/// What the descriptor reader carries from token to token: the spec so far,
/// whether a quality was written, and whether a half-diminished sign may
/// still take a 9, 11 or 13.
pub struct DescriptorState {
    pub spec: ChordSpec,
    pub explicit_quality: bool,
    pub half_diminished_can_extend: bool,
}

/// The token of word list `w` at `t[pos..]`, else `other`.
pub open spec fn word_or(
    t: Seq<char>,
    pos: int,
    w: DescriptorWords,
    other: Option<(DescriptorToken, int)>,
) -> Option<(DescriptorToken, int)> {
    match first_match(t, pos, t.len() as int, descriptor_words(w)) {
        Some(n) => Some((DescriptorToken::Word(w), n)),
        None => other,
    }
}

/// The token at `t[pos..]` with the position after it: the word lists are
/// tried in this order, then an alteration.
#[verifier::opaque]
pub open spec fn token_at(t: Seq<char>, pos: int) -> Option<(DescriptorToken, int)> {
    let altered = match alteration_at(t, pos, t.len() as int) {
        Some((a, n)) => Some((DescriptorToken::Altered(a), n)),
        None => None,
    };
    word_or(
        t,
        pos,
        DescriptorWords::HalfDiminishedSeventh,
    word_or(
        t,
        pos,
        DescriptorWords::HalfDiminished,
    word_or(
        t,
        pos,
        DescriptorWords::Alt,
    word_or(
        t,
        pos,
        DescriptorWords::Major13,
    word_or(
        t,
        pos,
        DescriptorWords::Major11,
    word_or(
        t,
        pos,
        DescriptorWords::Major9,
    word_or(
        t,
        pos,
        DescriptorWords::Major7,
    word_or(
        t,
        pos,
        DescriptorWords::Sus2,
    word_or(
        t,
        pos,
        DescriptorWords::Sus4,
    word_or(
        t,
        pos,
        DescriptorWords::Add13,
    word_or(
        t,
        pos,
        DescriptorWords::Add11,
    word_or(
        t,
        pos,
        DescriptorWords::Add9,
    word_or(
        t,
        pos,
        DescriptorWords::No5,
    word_or(
        t,
        pos,
        DescriptorWords::No3,
    word_or(
        t,
        pos,
        DescriptorWords::No1,
    word_or(
        t,
        pos,
        DescriptorWords::Thirteen,
    word_or(
        t,
        pos,
        DescriptorWords::Eleven,
    word_or(
        t,
        pos,
        DescriptorWords::Nine,
    word_or(
        t,
        pos,
        DescriptorWords::SixNine,
    word_or(
        t,
        pos,
        DescriptorWords::Seven,
    word_or(
        t,
        pos,
        DescriptorWords::Six,
        altered,
    )))))))))))))))))))))
}

/// The quality of list `w` at the start of `t`, else `other`.
pub open spec fn quality_or(
    t: Seq<char>,
    w: DescriptorWords,
    quality: Quality,
    other: Option<(Quality, int)>,
) -> Option<(Quality, int)> {
    match first_match(t, 0, t.len() as int, descriptor_words(w)) {
        Some(n) => Some((quality, n)),
        None => other,
    }
}

/// The quality written at the start of a descriptor, with its length. A
/// descriptor that starts with a major-seventh extension has no major or
/// minor mark there.
pub open spec fn lead_quality(t: Seq<char>) -> Option<(Quality, int)> {
    let others = quality_or(
        t,
        DescriptorWords::Diminished,
        Quality::Diminished,
        quality_or(
            t,
            DescriptorWords::Augmented,
            Quality::Augmented,
            quality_or(
                t,
                DescriptorWords::Sus2,
                Quality::Sus2,
                quality_or(
                    t,
                    DescriptorWords::Sus4,
                    Quality::Sus4,
                    quality_or(t, DescriptorWords::Power, Quality::Power, None),
                ),
            ),
        ),
    );
    if first_match(t, 0, t.len() as int, descriptor_words(DescriptorWords::MajorExtension)) is Some {
        others
    } else {
        quality_or(
            t,
            DescriptorWords::MajorWord,
            Quality::Major,
            quality_or(
                t,
                DescriptorWords::MinorWord,
                Quality::Minor,
                quality_or(t, DescriptorWords::MajorLetter, Quality::Major, others),
            ),
        )
    }
}

/// A plain major triad.
pub open spec fn plain_major() -> ChordSpec {
    ChordSpec {
        quality: Quality::Major,
        seventh: Seventh::Absent,
        extension: None,
        sixth: false,
        alt: false,
        add_bits: 0,
        alteration_bits: 0,
        omission_bits: 0,
    }
}

/// The state after the leading quality, and where the tokens start.
pub open spec fn descriptor_start(t: Seq<char>) -> (DescriptorState, int) {
    match lead_quality(t) {
        Some((q, n)) => (
            DescriptorState {
                spec: ChordSpec { quality: q, ..plain_major() },
                explicit_quality: true,
                half_diminished_can_extend: false,
            },
            n,
        ),
        None => (
            DescriptorState {
                spec: plain_major(),
                explicit_quality: false,
                half_diminished_can_extend: false,
            },
            0,
        ),
    }
}

/// Sets the quality unless one was written.
pub open spec fn with_quality(st: DescriptorState, quality: Quality) -> Option<DescriptorState> {
    if st.explicit_quality {
        None
    } else {
        Some(
            DescriptorState {
                spec: ChordSpec { quality, ..st.spec },
                explicit_quality: true,
                ..st
            },
        )
    }
}

/// Sets a seventh unless numbered harmony was written.
pub open spec fn with_seventh(st: DescriptorState, seventh: Seventh) -> Option<DescriptorState> {
    if numbered_harmony(st.spec) {
        None
    } else {
        Some(DescriptorState { spec: ChordSpec { seventh, ..st.spec }, ..st })
    }
}

/// Sets an extension and its seventh unless numbered harmony was written.
pub open spec fn with_extension(st: DescriptorState, extension: Extension, seventh: Seventh) -> Option<
    DescriptorState,
> {
    if numbered_harmony(st.spec) {
        None
    } else {
        Some(
            DescriptorState {
                spec: ChordSpec { seventh, extension: Some(extension), ..st.spec },
                ..st
            },
        )
    }
}

/// A bare 9, 11 or 13: it extends a half-diminished sign just read, else it
/// sets the extension over the seventh the quality implies.
pub open spec fn with_upper(st: DescriptorState, extension: Extension) -> Option<DescriptorState> {
    if st.half_diminished_can_extend && half_diminished_base(st.spec) {
        Some(
            DescriptorState {
                spec: ChordSpec { extension: Some(extension), ..st.spec },
                half_diminished_can_extend: false,
                ..st
            },
        )
    } else {
        with_extension(st, extension, implied_seventh(st.spec.quality))
    }
}

/// Adds a degree unless it was added.
pub open spec fn with_add(st: DescriptorState, degree: int) -> Option<DescriptorState> {
    if st.spec.has_add(degree) {
        None
    } else {
        Some(
            DescriptorState {
                spec: ChordSpec { add_bits: added_bits(st.spec.add_bits, degree), ..st.spec },
                ..st
            },
        )
    }
}

/// Omits a degree unless it was omitted.
pub open spec fn with_omission(st: DescriptorState, degree: int) -> Option<DescriptorState> {
    if st.spec.has_omission(degree) {
        None
    } else {
        Some(
            DescriptorState {
                spec: ChordSpec { omission_bits: omitted_bits(st.spec.omission_bits, degree), ..st.spec },
                ..st
            },
        )
    }
}

/// The half-diminished sign, unless anything was written before it.
pub open spec fn with_half_diminished(st: DescriptorState, can_extend: bool) -> Option<DescriptorState> {
    if half_diminished_blocked(st.spec, st.explicit_quality) {
        None
    } else {
        Some(
            DescriptorState {
                spec: half_diminished_spec(st.spec),
                explicit_quality: true,
                half_diminished_can_extend: can_extend,
            },
        )
    }
}

/// The state after reading `token`, or `None` where the token conflicts
/// with what was read.
#[verifier::opaque]
pub open spec fn apply_token(st: DescriptorState, token: DescriptorToken) -> Option<DescriptorState> {
    let spec = st.spec;
    match token {
        DescriptorToken::Altered(a) => if spec.has_alteration(a.degree as int, a.accidental as int) {
            None
        } else {
            Some(
                DescriptorState {
                    spec: ChordSpec { alteration_bits: altered_bits(spec.alteration_bits, a), ..spec },
                    ..st
                },
            )
        },
        DescriptorToken::Word(w) => match w {
            DescriptorWords::HalfDiminishedSeventh => with_half_diminished(
                st,
                st.half_diminished_can_extend,
            ),
            DescriptorWords::HalfDiminished => with_half_diminished(st, true),
            DescriptorWords::Alt => if spec.alt {
                None
            } else {
                Some(DescriptorState { spec: ChordSpec { alt: true, ..spec }, ..st })
            },
            DescriptorWords::Major13 => with_extension(st, Extension::Thirteenth, Seventh::Major),
            DescriptorWords::Major11 => with_extension(st, Extension::Eleventh, Seventh::Major),
            DescriptorWords::Major9 => with_extension(st, Extension::Ninth, Seventh::Major),
            DescriptorWords::Major7 => with_seventh(st, Seventh::Major),
            DescriptorWords::Sus2 => with_quality(st, Quality::Sus2),
            DescriptorWords::Sus4 => with_quality(st, Quality::Sus4),
            DescriptorWords::Add13 => with_add(st, 13),
            DescriptorWords::Add11 => with_add(st, 11),
            DescriptorWords::Add9 => with_add(st, 9),
            DescriptorWords::No5 => with_omission(st, 5),
            DescriptorWords::No3 => with_omission(st, 3),
            DescriptorWords::No1 => with_omission(st, 1),
            DescriptorWords::Thirteen => with_upper(st, Extension::Thirteenth),
            DescriptorWords::Eleven => with_upper(st, Extension::Eleventh),
            DescriptorWords::Nine => with_upper(st, Extension::Ninth),
            DescriptorWords::SixNine => if numbered_harmony(spec) {
                None
            } else {
                with_add(DescriptorState { spec: ChordSpec { sixth: true, ..spec }, ..st }, 9)
            },
            DescriptorWords::Seven => with_seventh(
                st,
                if spec.quality == Quality::Diminished {
                    Seventh::Diminished
                } else {
                    Seventh::Minor
                },
            ),
            DescriptorWords::Six => if numbered_harmony(spec) {
                None
            } else {
                Some(DescriptorState { spec: ChordSpec { sixth: true, ..spec }, ..st })
            },
            _ => None,
        },
    }
}

/// Reads the tokens of `t` from `pos` on.
pub open spec fn descriptor_run(t: Seq<char>, pos: int, st: DescriptorState) -> Option<DescriptorState>
    decreases t.len() - pos,
{
    if pos >= t.len() {
        Some(st)
    } else {
        match token_at(t, pos) {
            Some((token, n)) => if pos < n <= t.len() {
                match apply_token(st, token) {
                    Some(next) => descriptor_run(t, n, next),
                    None => None,
                }
            } else {
                None
            },
            None => None,
        }
    }
}

/// Reading one token and then the rest.
proof fn lemma_run_step(t: Seq<char>, pos: int, st: DescriptorState, token: DescriptorToken, n: int)
    requires
        0 <= pos < n <= t.len(),
        token_at(t, pos) == Some((token, n)),
    ensures
        descriptor_run(t, pos, st) == (match apply_token(st, token) {
            Some(next) => descriptor_run(t, n, next),
            None => None,
        }),
{
}

/// The first word that starts `t[pos..end]` is found.
proof fn lemma_first_match_at(t: Seq<char>, pos: int, end: int, words: Seq<Seq<char>>, k: int)
    requires
        0 <= k < words.len(),
        forall|i: int| 0 <= i < k ==> !matches_at(t, pos, end, #[trigger] words[i]),
        words[k].len() > 0,
        matches_at(t, pos, end, words[k]),
    ensures
        first_match(t, pos, end, words) == Some(pos + words[k].len()),
    decreases k,
{
    if k > 0 {
        assert(!matches_at(t, pos, end, words[0]));
        assert forall|i: int| 0 <= i < k - 1 implies !matches_at(t, pos, end, #[trigger] words.drop_first()[i]) by {
            assert(words.drop_first()[i] == words[i + 1]);
        }
        assert(words.drop_first()[k - 1] == words[k]);
        lemma_first_match_at(t, pos, end, words.drop_first(), k - 1);
    }
}

/// No word of a list starts `t[pos..end]`: nothing is found.
proof fn lemma_first_match_none(t: Seq<char>, pos: int, end: int, words: Seq<Seq<char>>)
    requires
        forall|i: int| 0 <= i < words.len() ==> !matches_at(t, pos, end, #[trigger] words[i]),
    ensures
        first_match(t, pos, end, words) is None,
    decreases words.len(),
{
    if words.len() > 0 {
        assert(!matches_at(t, pos, end, words[0]));
        assert forall|i: int| 0 <= i < words.drop_first().len() implies !matches_at(
            t,
            pos,
            end,
            #[trigger] words.drop_first()[i],
        ) by {
            assert(words.drop_first()[i] == words[i + 1]);
        }
        lemma_first_match_none(t, pos, end, words.drop_first());
    }
}

/// Reading back the word a major seventh is printed with: at the start of
/// any text that begins with the harmony text of a spec with a major
/// seventh over a major, augmented, diminished or suspended quality, the
/// reader finds the word for that seventh and extension, and applying it to
/// any state without numbered harmony yet gives a major seventh and the
/// same extension.
pub proof fn lemma_major_seventh_reads_back(spec: ChordSpec, t: Seq<char>, st: DescriptorState)
    requires
        spec.seventh == Seventh::Major,
        spec.quality != Quality::Minor,
        t.len() >= harmony_text(spec).len(),
        t.subrange(0, harmony_text(spec).len() as int) == harmony_text(spec),
        !numbered_harmony(st.spec),
    ensures
        ({
            let found = token_at(t, 0);
            &&& found is Some
            &&& (found->0).1 == harmony_text(spec).len()
            &&& apply_token(st, (found->0).0) is Some
            &&& (apply_token(st, (found->0).0)->0).spec.seventh == Seventh::Major
            &&& (apply_token(st, (found->0).0)->0).spec.extension == spec.extension
        }),
{
    reveal(token_at);
    reveal(apply_token);
    reveal_strlit("\u{f8}7");
    reveal_strlit("\u{d8}7");
    reveal_strlit("\u{f8}");
    reveal_strlit("\u{d8}");
    reveal_strlit("alt");
    reveal_strlit("Alt");
    reveal_strlit("ALT");
    reveal_strlit("maj13");
    reveal_strlit("Maj13");
    reveal_strlit("MAJ13");
    reveal_strlit("M13");
    reveal_strlit("\u{394}13");
    reveal_strlit("\u{25b3}13");
    reveal_strlit("maj11");
    reveal_strlit("Maj11");
    reveal_strlit("MAJ11");
    reveal_strlit("M11");
    reveal_strlit("\u{394}11");
    reveal_strlit("\u{25b3}11");
    reveal_strlit("maj9");
    reveal_strlit("Maj9");
    reveal_strlit("MAJ9");
    reveal_strlit("M9");
    reveal_strlit("\u{394}9");
    reveal_strlit("\u{25b3}9");
    reveal_strlit("maj7");
    reveal_strlit("Maj7");
    reveal_strlit("MAJ7");
    reveal_strlit("M7");
    reveal_strlit("\u{394}7");
    reveal_strlit("\u{25b3}7");
    reveal_strlit("\u{394}");
    reveal_strlit("\u{25b3}");
    let h = harmony_text(spec);
    assert forall|j: int| 0 <= j < h.len() implies #[trigger] t[j] == h[j] by {
        assert(t.subrange(0, h.len() as int)[j] == t[j]);
    }
    if spec.extension == Some(Extension::Thirteenth) {
        assert(h =~= seq!['m', 'a', 'j', '1', '3']);
        assert(!matches_at(t, 0, t.len() as int, descriptor_words(DescriptorWords::HalfDiminishedSeventh)[0])) by {
            let w = descriptor_words(DescriptorWords::HalfDiminishedSeventh)[0];
            assert(w == "\u{f8}7"@);
            assert(w[0] == '\u{f8}');
            if matches_at(t, 0, t.len() as int, w) {
                assert(t.subrange(0, w.len() as int)[0] == t[0]);
            }
        }
        assert(!matches_at(t, 0, t.len() as int, descriptor_words(DescriptorWords::HalfDiminishedSeventh)[1])) by {
            let w = descriptor_words(DescriptorWords::HalfDiminishedSeventh)[1];
            assert(w == "\u{d8}7"@);
            assert(w[0] == '\u{d8}');
            if matches_at(t, 0, t.len() as int, w) {
                assert(t.subrange(0, w.len() as int)[0] == t[0]);
            }
        }
        lemma_first_match_none(t, 0, t.len() as int, descriptor_words(DescriptorWords::HalfDiminishedSeventh));
        assert(!matches_at(t, 0, t.len() as int, descriptor_words(DescriptorWords::HalfDiminished)[0])) by {
            let w = descriptor_words(DescriptorWords::HalfDiminished)[0];
            assert(w == "\u{f8}"@);
            assert(w[0] == '\u{f8}');
            if matches_at(t, 0, t.len() as int, w) {
                assert(t.subrange(0, w.len() as int)[0] == t[0]);
            }
        }
        assert(!matches_at(t, 0, t.len() as int, descriptor_words(DescriptorWords::HalfDiminished)[1])) by {
            let w = descriptor_words(DescriptorWords::HalfDiminished)[1];
            assert(w == "\u{d8}"@);
            assert(w[0] == '\u{d8}');
            if matches_at(t, 0, t.len() as int, w) {
                assert(t.subrange(0, w.len() as int)[0] == t[0]);
            }
        }
        lemma_first_match_none(t, 0, t.len() as int, descriptor_words(DescriptorWords::HalfDiminished));
        assert(!matches_at(t, 0, t.len() as int, descriptor_words(DescriptorWords::Alt)[0])) by {
            let w = descriptor_words(DescriptorWords::Alt)[0];
            assert(w == "alt"@);
            assert(w[0] == 'a');
            if matches_at(t, 0, t.len() as int, w) {
                assert(t.subrange(0, w.len() as int)[0] == t[0]);
            }
        }
        assert(!matches_at(t, 0, t.len() as int, descriptor_words(DescriptorWords::Alt)[1])) by {
            let w = descriptor_words(DescriptorWords::Alt)[1];
            assert(w == "Alt"@);
            assert(w[0] == 'A');
            if matches_at(t, 0, t.len() as int, w) {
                assert(t.subrange(0, w.len() as int)[0] == t[0]);
            }
        }
        assert(!matches_at(t, 0, t.len() as int, descriptor_words(DescriptorWords::Alt)[2])) by {
            let w = descriptor_words(DescriptorWords::Alt)[2];
            assert(w == "ALT"@);
            assert(w[0] == 'A');
            if matches_at(t, 0, t.len() as int, w) {
                assert(t.subrange(0, w.len() as int)[0] == t[0]);
            }
        }
        lemma_first_match_none(t, 0, t.len() as int, descriptor_words(DescriptorWords::Alt));
        assert(descriptor_words(DescriptorWords::Major13)[0] == "maj13"@);
        assert(matches_at(t, 0, t.len() as int, descriptor_words(DescriptorWords::Major13)[0])) by {
            assert(t.subrange(0, 5) =~= h);
            assert(descriptor_words(DescriptorWords::Major13)[0] =~= h);
        }
    } else if spec.extension == Some(Extension::Eleventh) {
        assert(h =~= seq!['m', 'a', 'j', '1', '1']);
        assert(!matches_at(t, 0, t.len() as int, descriptor_words(DescriptorWords::HalfDiminishedSeventh)[0])) by {
            let w = descriptor_words(DescriptorWords::HalfDiminishedSeventh)[0];
            assert(w == "\u{f8}7"@);
            assert(w[0] == '\u{f8}');
            if matches_at(t, 0, t.len() as int, w) {
                assert(t.subrange(0, w.len() as int)[0] == t[0]);
            }
        }
        assert(!matches_at(t, 0, t.len() as int, descriptor_words(DescriptorWords::HalfDiminishedSeventh)[1])) by {
            let w = descriptor_words(DescriptorWords::HalfDiminishedSeventh)[1];
            assert(w == "\u{d8}7"@);
            assert(w[0] == '\u{d8}');
            if matches_at(t, 0, t.len() as int, w) {
                assert(t.subrange(0, w.len() as int)[0] == t[0]);
            }
        }
        lemma_first_match_none(t, 0, t.len() as int, descriptor_words(DescriptorWords::HalfDiminishedSeventh));
        assert(!matches_at(t, 0, t.len() as int, descriptor_words(DescriptorWords::HalfDiminished)[0])) by {
            let w = descriptor_words(DescriptorWords::HalfDiminished)[0];
            assert(w == "\u{f8}"@);
            assert(w[0] == '\u{f8}');
            if matches_at(t, 0, t.len() as int, w) {
                assert(t.subrange(0, w.len() as int)[0] == t[0]);
            }
        }
        assert(!matches_at(t, 0, t.len() as int, descriptor_words(DescriptorWords::HalfDiminished)[1])) by {
            let w = descriptor_words(DescriptorWords::HalfDiminished)[1];
            assert(w == "\u{d8}"@);
            assert(w[0] == '\u{d8}');
            if matches_at(t, 0, t.len() as int, w) {
                assert(t.subrange(0, w.len() as int)[0] == t[0]);
            }
        }
        lemma_first_match_none(t, 0, t.len() as int, descriptor_words(DescriptorWords::HalfDiminished));
        assert(!matches_at(t, 0, t.len() as int, descriptor_words(DescriptorWords::Alt)[0])) by {
            let w = descriptor_words(DescriptorWords::Alt)[0];
            assert(w == "alt"@);
            assert(w[0] == 'a');
            if matches_at(t, 0, t.len() as int, w) {
                assert(t.subrange(0, w.len() as int)[0] == t[0]);
            }
        }
        assert(!matches_at(t, 0, t.len() as int, descriptor_words(DescriptorWords::Alt)[1])) by {
            let w = descriptor_words(DescriptorWords::Alt)[1];
            assert(w == "Alt"@);
            assert(w[0] == 'A');
            if matches_at(t, 0, t.len() as int, w) {
                assert(t.subrange(0, w.len() as int)[0] == t[0]);
            }
        }
        assert(!matches_at(t, 0, t.len() as int, descriptor_words(DescriptorWords::Alt)[2])) by {
            let w = descriptor_words(DescriptorWords::Alt)[2];
            assert(w == "ALT"@);
            assert(w[0] == 'A');
            if matches_at(t, 0, t.len() as int, w) {
                assert(t.subrange(0, w.len() as int)[0] == t[0]);
            }
        }
        lemma_first_match_none(t, 0, t.len() as int, descriptor_words(DescriptorWords::Alt));
        assert(!matches_at(t, 0, t.len() as int, descriptor_words(DescriptorWords::Major13)[0])) by {
            let w = descriptor_words(DescriptorWords::Major13)[0];
            assert(w == "maj13"@);
            assert(w[4] == '3');
            if matches_at(t, 0, t.len() as int, w) {
                assert(t.subrange(0, w.len() as int)[4] == t[4]);
            }
        }
        assert(!matches_at(t, 0, t.len() as int, descriptor_words(DescriptorWords::Major13)[1])) by {
            let w = descriptor_words(DescriptorWords::Major13)[1];
            assert(w == "Maj13"@);
            assert(w[0] == 'M');
            if matches_at(t, 0, t.len() as int, w) {
                assert(t.subrange(0, w.len() as int)[0] == t[0]);
            }
        }
        assert(!matches_at(t, 0, t.len() as int, descriptor_words(DescriptorWords::Major13)[2])) by {
            let w = descriptor_words(DescriptorWords::Major13)[2];
            assert(w == "MAJ13"@);
            assert(w[0] == 'M');
            if matches_at(t, 0, t.len() as int, w) {
                assert(t.subrange(0, w.len() as int)[0] == t[0]);
            }
        }
        assert(!matches_at(t, 0, t.len() as int, descriptor_words(DescriptorWords::Major13)[3])) by {
            let w = descriptor_words(DescriptorWords::Major13)[3];
            assert(w == "M13"@);
            assert(w[0] == 'M');
            if matches_at(t, 0, t.len() as int, w) {
                assert(t.subrange(0, w.len() as int)[0] == t[0]);
            }
        }
        assert(!matches_at(t, 0, t.len() as int, descriptor_words(DescriptorWords::Major13)[4])) by {
            let w = descriptor_words(DescriptorWords::Major13)[4];
            assert(w == "\u{394}13"@);
            assert(w[0] == '\u{394}');
            if matches_at(t, 0, t.len() as int, w) {
                assert(t.subrange(0, w.len() as int)[0] == t[0]);
            }
        }
        assert(!matches_at(t, 0, t.len() as int, descriptor_words(DescriptorWords::Major13)[5])) by {
            let w = descriptor_words(DescriptorWords::Major13)[5];
            assert(w == "\u{25b3}13"@);
            assert(w[0] == '\u{25b3}');
            if matches_at(t, 0, t.len() as int, w) {
                assert(t.subrange(0, w.len() as int)[0] == t[0]);
            }
        }
        lemma_first_match_none(t, 0, t.len() as int, descriptor_words(DescriptorWords::Major13));
        assert(descriptor_words(DescriptorWords::Major11)[0] == "maj11"@);
        assert(matches_at(t, 0, t.len() as int, descriptor_words(DescriptorWords::Major11)[0])) by {
            assert(t.subrange(0, 5) =~= h);
            assert(descriptor_words(DescriptorWords::Major11)[0] =~= h);
        }
    } else if spec.extension == Some(Extension::Ninth) {
        assert(h =~= seq!['m', 'a', 'j', '9']);
        assert(!matches_at(t, 0, t.len() as int, descriptor_words(DescriptorWords::HalfDiminishedSeventh)[0])) by {
            let w = descriptor_words(DescriptorWords::HalfDiminishedSeventh)[0];
            assert(w == "\u{f8}7"@);
            assert(w[0] == '\u{f8}');
            if matches_at(t, 0, t.len() as int, w) {
                assert(t.subrange(0, w.len() as int)[0] == t[0]);
            }
        }
        assert(!matches_at(t, 0, t.len() as int, descriptor_words(DescriptorWords::HalfDiminishedSeventh)[1])) by {
            let w = descriptor_words(DescriptorWords::HalfDiminishedSeventh)[1];
            assert(w == "\u{d8}7"@);
            assert(w[0] == '\u{d8}');
            if matches_at(t, 0, t.len() as int, w) {
                assert(t.subrange(0, w.len() as int)[0] == t[0]);
            }
        }
        lemma_first_match_none(t, 0, t.len() as int, descriptor_words(DescriptorWords::HalfDiminishedSeventh));
        assert(!matches_at(t, 0, t.len() as int, descriptor_words(DescriptorWords::HalfDiminished)[0])) by {
            let w = descriptor_words(DescriptorWords::HalfDiminished)[0];
            assert(w == "\u{f8}"@);
            assert(w[0] == '\u{f8}');
            if matches_at(t, 0, t.len() as int, w) {
                assert(t.subrange(0, w.len() as int)[0] == t[0]);
            }
        }
        assert(!matches_at(t, 0, t.len() as int, descriptor_words(DescriptorWords::HalfDiminished)[1])) by {
            let w = descriptor_words(DescriptorWords::HalfDiminished)[1];
            assert(w == "\u{d8}"@);
            assert(w[0] == '\u{d8}');
            if matches_at(t, 0, t.len() as int, w) {
                assert(t.subrange(0, w.len() as int)[0] == t[0]);
            }
        }
        lemma_first_match_none(t, 0, t.len() as int, descriptor_words(DescriptorWords::HalfDiminished));
        assert(!matches_at(t, 0, t.len() as int, descriptor_words(DescriptorWords::Alt)[0])) by {
            let w = descriptor_words(DescriptorWords::Alt)[0];
            assert(w == "alt"@);
            assert(w[0] == 'a');
            if matches_at(t, 0, t.len() as int, w) {
                assert(t.subrange(0, w.len() as int)[0] == t[0]);
            }
        }
        assert(!matches_at(t, 0, t.len() as int, descriptor_words(DescriptorWords::Alt)[1])) by {
            let w = descriptor_words(DescriptorWords::Alt)[1];
            assert(w == "Alt"@);
            assert(w[0] == 'A');
            if matches_at(t, 0, t.len() as int, w) {
                assert(t.subrange(0, w.len() as int)[0] == t[0]);
            }
        }
        assert(!matches_at(t, 0, t.len() as int, descriptor_words(DescriptorWords::Alt)[2])) by {
            let w = descriptor_words(DescriptorWords::Alt)[2];
            assert(w == "ALT"@);
            assert(w[0] == 'A');
            if matches_at(t, 0, t.len() as int, w) {
                assert(t.subrange(0, w.len() as int)[0] == t[0]);
            }
        }
        lemma_first_match_none(t, 0, t.len() as int, descriptor_words(DescriptorWords::Alt));
        assert(!matches_at(t, 0, t.len() as int, descriptor_words(DescriptorWords::Major13)[0])) by {
            let w = descriptor_words(DescriptorWords::Major13)[0];
            assert(w == "maj13"@);
            assert(w[3] == '1');
            if matches_at(t, 0, t.len() as int, w) {
                assert(t.subrange(0, w.len() as int)[3] == t[3]);
            }
        }
        assert(!matches_at(t, 0, t.len() as int, descriptor_words(DescriptorWords::Major13)[1])) by {
            let w = descriptor_words(DescriptorWords::Major13)[1];
            assert(w == "Maj13"@);
            assert(w[0] == 'M');
            if matches_at(t, 0, t.len() as int, w) {
                assert(t.subrange(0, w.len() as int)[0] == t[0]);
            }
        }
        assert(!matches_at(t, 0, t.len() as int, descriptor_words(DescriptorWords::Major13)[2])) by {
            let w = descriptor_words(DescriptorWords::Major13)[2];
            assert(w == "MAJ13"@);
            assert(w[0] == 'M');
            if matches_at(t, 0, t.len() as int, w) {
                assert(t.subrange(0, w.len() as int)[0] == t[0]);
            }
        }
        assert(!matches_at(t, 0, t.len() as int, descriptor_words(DescriptorWords::Major13)[3])) by {
            let w = descriptor_words(DescriptorWords::Major13)[3];
            assert(w == "M13"@);
            assert(w[0] == 'M');
            if matches_at(t, 0, t.len() as int, w) {
                assert(t.subrange(0, w.len() as int)[0] == t[0]);
            }
        }
        assert(!matches_at(t, 0, t.len() as int, descriptor_words(DescriptorWords::Major13)[4])) by {
            let w = descriptor_words(DescriptorWords::Major13)[4];
            assert(w == "\u{394}13"@);
            assert(w[0] == '\u{394}');
            if matches_at(t, 0, t.len() as int, w) {
                assert(t.subrange(0, w.len() as int)[0] == t[0]);
            }
        }
        assert(!matches_at(t, 0, t.len() as int, descriptor_words(DescriptorWords::Major13)[5])) by {
            let w = descriptor_words(DescriptorWords::Major13)[5];
            assert(w == "\u{25b3}13"@);
            assert(w[0] == '\u{25b3}');
            if matches_at(t, 0, t.len() as int, w) {
                assert(t.subrange(0, w.len() as int)[0] == t[0]);
            }
        }
        lemma_first_match_none(t, 0, t.len() as int, descriptor_words(DescriptorWords::Major13));
        assert(!matches_at(t, 0, t.len() as int, descriptor_words(DescriptorWords::Major11)[0])) by {
            let w = descriptor_words(DescriptorWords::Major11)[0];
            assert(w == "maj11"@);
            assert(w[3] == '1');
            if matches_at(t, 0, t.len() as int, w) {
                assert(t.subrange(0, w.len() as int)[3] == t[3]);
            }
        }
        assert(!matches_at(t, 0, t.len() as int, descriptor_words(DescriptorWords::Major11)[1])) by {
            let w = descriptor_words(DescriptorWords::Major11)[1];
            assert(w == "Maj11"@);
            assert(w[0] == 'M');
            if matches_at(t, 0, t.len() as int, w) {
                assert(t.subrange(0, w.len() as int)[0] == t[0]);
            }
        }
        assert(!matches_at(t, 0, t.len() as int, descriptor_words(DescriptorWords::Major11)[2])) by {
            let w = descriptor_words(DescriptorWords::Major11)[2];
            assert(w == "MAJ11"@);
            assert(w[0] == 'M');
            if matches_at(t, 0, t.len() as int, w) {
                assert(t.subrange(0, w.len() as int)[0] == t[0]);
            }
        }
        assert(!matches_at(t, 0, t.len() as int, descriptor_words(DescriptorWords::Major11)[3])) by {
            let w = descriptor_words(DescriptorWords::Major11)[3];
            assert(w == "M11"@);
            assert(w[0] == 'M');
            if matches_at(t, 0, t.len() as int, w) {
                assert(t.subrange(0, w.len() as int)[0] == t[0]);
            }
        }
        assert(!matches_at(t, 0, t.len() as int, descriptor_words(DescriptorWords::Major11)[4])) by {
            let w = descriptor_words(DescriptorWords::Major11)[4];
            assert(w == "\u{394}11"@);
            assert(w[0] == '\u{394}');
            if matches_at(t, 0, t.len() as int, w) {
                assert(t.subrange(0, w.len() as int)[0] == t[0]);
            }
        }
        assert(!matches_at(t, 0, t.len() as int, descriptor_words(DescriptorWords::Major11)[5])) by {
            let w = descriptor_words(DescriptorWords::Major11)[5];
            assert(w == "\u{25b3}11"@);
            assert(w[0] == '\u{25b3}');
            if matches_at(t, 0, t.len() as int, w) {
                assert(t.subrange(0, w.len() as int)[0] == t[0]);
            }
        }
        lemma_first_match_none(t, 0, t.len() as int, descriptor_words(DescriptorWords::Major11));
        assert(descriptor_words(DescriptorWords::Major9)[0] == "maj9"@);
        assert(matches_at(t, 0, t.len() as int, descriptor_words(DescriptorWords::Major9)[0])) by {
            assert(t.subrange(0, 4) =~= h);
            assert(descriptor_words(DescriptorWords::Major9)[0] =~= h);
        }
    } else if spec.extension is None {
        assert(h =~= seq!['m', 'a', 'j', '7']);
        assert(!matches_at(t, 0, t.len() as int, descriptor_words(DescriptorWords::HalfDiminishedSeventh)[0])) by {
            let w = descriptor_words(DescriptorWords::HalfDiminishedSeventh)[0];
            assert(w == "\u{f8}7"@);
            assert(w[0] == '\u{f8}');
            if matches_at(t, 0, t.len() as int, w) {
                assert(t.subrange(0, w.len() as int)[0] == t[0]);
            }
        }
        assert(!matches_at(t, 0, t.len() as int, descriptor_words(DescriptorWords::HalfDiminishedSeventh)[1])) by {
            let w = descriptor_words(DescriptorWords::HalfDiminishedSeventh)[1];
            assert(w == "\u{d8}7"@);
            assert(w[0] == '\u{d8}');
            if matches_at(t, 0, t.len() as int, w) {
                assert(t.subrange(0, w.len() as int)[0] == t[0]);
            }
        }
        lemma_first_match_none(t, 0, t.len() as int, descriptor_words(DescriptorWords::HalfDiminishedSeventh));
        assert(!matches_at(t, 0, t.len() as int, descriptor_words(DescriptorWords::HalfDiminished)[0])) by {
            let w = descriptor_words(DescriptorWords::HalfDiminished)[0];
            assert(w == "\u{f8}"@);
            assert(w[0] == '\u{f8}');
            if matches_at(t, 0, t.len() as int, w) {
                assert(t.subrange(0, w.len() as int)[0] == t[0]);
            }
        }
        assert(!matches_at(t, 0, t.len() as int, descriptor_words(DescriptorWords::HalfDiminished)[1])) by {
            let w = descriptor_words(DescriptorWords::HalfDiminished)[1];
            assert(w == "\u{d8}"@);
            assert(w[0] == '\u{d8}');
            if matches_at(t, 0, t.len() as int, w) {
                assert(t.subrange(0, w.len() as int)[0] == t[0]);
            }
        }
        lemma_first_match_none(t, 0, t.len() as int, descriptor_words(DescriptorWords::HalfDiminished));
        assert(!matches_at(t, 0, t.len() as int, descriptor_words(DescriptorWords::Alt)[0])) by {
            let w = descriptor_words(DescriptorWords::Alt)[0];
            assert(w == "alt"@);
            assert(w[0] == 'a');
            if matches_at(t, 0, t.len() as int, w) {
                assert(t.subrange(0, w.len() as int)[0] == t[0]);
            }
        }
        assert(!matches_at(t, 0, t.len() as int, descriptor_words(DescriptorWords::Alt)[1])) by {
            let w = descriptor_words(DescriptorWords::Alt)[1];
            assert(w == "Alt"@);
            assert(w[0] == 'A');
            if matches_at(t, 0, t.len() as int, w) {
                assert(t.subrange(0, w.len() as int)[0] == t[0]);
            }
        }
        assert(!matches_at(t, 0, t.len() as int, descriptor_words(DescriptorWords::Alt)[2])) by {
            let w = descriptor_words(DescriptorWords::Alt)[2];
            assert(w == "ALT"@);
            assert(w[0] == 'A');
            if matches_at(t, 0, t.len() as int, w) {
                assert(t.subrange(0, w.len() as int)[0] == t[0]);
            }
        }
        lemma_first_match_none(t, 0, t.len() as int, descriptor_words(DescriptorWords::Alt));
        assert(!matches_at(t, 0, t.len() as int, descriptor_words(DescriptorWords::Major13)[0])) by {
            let w = descriptor_words(DescriptorWords::Major13)[0];
            assert(w == "maj13"@);
            assert(w[3] == '1');
            if matches_at(t, 0, t.len() as int, w) {
                assert(t.subrange(0, w.len() as int)[3] == t[3]);
            }
        }
        assert(!matches_at(t, 0, t.len() as int, descriptor_words(DescriptorWords::Major13)[1])) by {
            let w = descriptor_words(DescriptorWords::Major13)[1];
            assert(w == "Maj13"@);
            assert(w[0] == 'M');
            if matches_at(t, 0, t.len() as int, w) {
                assert(t.subrange(0, w.len() as int)[0] == t[0]);
            }
        }
        assert(!matches_at(t, 0, t.len() as int, descriptor_words(DescriptorWords::Major13)[2])) by {
            let w = descriptor_words(DescriptorWords::Major13)[2];
            assert(w == "MAJ13"@);
            assert(w[0] == 'M');
            if matches_at(t, 0, t.len() as int, w) {
                assert(t.subrange(0, w.len() as int)[0] == t[0]);
            }
        }
        assert(!matches_at(t, 0, t.len() as int, descriptor_words(DescriptorWords::Major13)[3])) by {
            let w = descriptor_words(DescriptorWords::Major13)[3];
            assert(w == "M13"@);
            assert(w[0] == 'M');
            if matches_at(t, 0, t.len() as int, w) {
                assert(t.subrange(0, w.len() as int)[0] == t[0]);
            }
        }
        assert(!matches_at(t, 0, t.len() as int, descriptor_words(DescriptorWords::Major13)[4])) by {
            let w = descriptor_words(DescriptorWords::Major13)[4];
            assert(w == "\u{394}13"@);
            assert(w[0] == '\u{394}');
            if matches_at(t, 0, t.len() as int, w) {
                assert(t.subrange(0, w.len() as int)[0] == t[0]);
            }
        }
        assert(!matches_at(t, 0, t.len() as int, descriptor_words(DescriptorWords::Major13)[5])) by {
            let w = descriptor_words(DescriptorWords::Major13)[5];
            assert(w == "\u{25b3}13"@);
            assert(w[0] == '\u{25b3}');
            if matches_at(t, 0, t.len() as int, w) {
                assert(t.subrange(0, w.len() as int)[0] == t[0]);
            }
        }
        lemma_first_match_none(t, 0, t.len() as int, descriptor_words(DescriptorWords::Major13));
        assert(!matches_at(t, 0, t.len() as int, descriptor_words(DescriptorWords::Major11)[0])) by {
            let w = descriptor_words(DescriptorWords::Major11)[0];
            assert(w == "maj11"@);
            assert(w[3] == '1');
            if matches_at(t, 0, t.len() as int, w) {
                assert(t.subrange(0, w.len() as int)[3] == t[3]);
            }
        }
        assert(!matches_at(t, 0, t.len() as int, descriptor_words(DescriptorWords::Major11)[1])) by {
            let w = descriptor_words(DescriptorWords::Major11)[1];
            assert(w == "Maj11"@);
            assert(w[0] == 'M');
            if matches_at(t, 0, t.len() as int, w) {
                assert(t.subrange(0, w.len() as int)[0] == t[0]);
            }
        }
        assert(!matches_at(t, 0, t.len() as int, descriptor_words(DescriptorWords::Major11)[2])) by {
            let w = descriptor_words(DescriptorWords::Major11)[2];
            assert(w == "MAJ11"@);
            assert(w[0] == 'M');
            if matches_at(t, 0, t.len() as int, w) {
                assert(t.subrange(0, w.len() as int)[0] == t[0]);
            }
        }
        assert(!matches_at(t, 0, t.len() as int, descriptor_words(DescriptorWords::Major11)[3])) by {
            let w = descriptor_words(DescriptorWords::Major11)[3];
            assert(w == "M11"@);
            assert(w[0] == 'M');
            if matches_at(t, 0, t.len() as int, w) {
                assert(t.subrange(0, w.len() as int)[0] == t[0]);
            }
        }
        assert(!matches_at(t, 0, t.len() as int, descriptor_words(DescriptorWords::Major11)[4])) by {
            let w = descriptor_words(DescriptorWords::Major11)[4];
            assert(w == "\u{394}11"@);
            assert(w[0] == '\u{394}');
            if matches_at(t, 0, t.len() as int, w) {
                assert(t.subrange(0, w.len() as int)[0] == t[0]);
            }
        }
        assert(!matches_at(t, 0, t.len() as int, descriptor_words(DescriptorWords::Major11)[5])) by {
            let w = descriptor_words(DescriptorWords::Major11)[5];
            assert(w == "\u{25b3}11"@);
            assert(w[0] == '\u{25b3}');
            if matches_at(t, 0, t.len() as int, w) {
                assert(t.subrange(0, w.len() as int)[0] == t[0]);
            }
        }
        lemma_first_match_none(t, 0, t.len() as int, descriptor_words(DescriptorWords::Major11));
        assert(!matches_at(t, 0, t.len() as int, descriptor_words(DescriptorWords::Major9)[0])) by {
            let w = descriptor_words(DescriptorWords::Major9)[0];
            assert(w == "maj9"@);
            assert(w[3] == '9');
            if matches_at(t, 0, t.len() as int, w) {
                assert(t.subrange(0, w.len() as int)[3] == t[3]);
            }
        }
        assert(!matches_at(t, 0, t.len() as int, descriptor_words(DescriptorWords::Major9)[1])) by {
            let w = descriptor_words(DescriptorWords::Major9)[1];
            assert(w == "Maj9"@);
            assert(w[0] == 'M');
            if matches_at(t, 0, t.len() as int, w) {
                assert(t.subrange(0, w.len() as int)[0] == t[0]);
            }
        }
        assert(!matches_at(t, 0, t.len() as int, descriptor_words(DescriptorWords::Major9)[2])) by {
            let w = descriptor_words(DescriptorWords::Major9)[2];
            assert(w == "MAJ9"@);
            assert(w[0] == 'M');
            if matches_at(t, 0, t.len() as int, w) {
                assert(t.subrange(0, w.len() as int)[0] == t[0]);
            }
        }
        assert(!matches_at(t, 0, t.len() as int, descriptor_words(DescriptorWords::Major9)[3])) by {
            let w = descriptor_words(DescriptorWords::Major9)[3];
            assert(w == "M9"@);
            assert(w[0] == 'M');
            if matches_at(t, 0, t.len() as int, w) {
                assert(t.subrange(0, w.len() as int)[0] == t[0]);
            }
        }
        assert(!matches_at(t, 0, t.len() as int, descriptor_words(DescriptorWords::Major9)[4])) by {
            let w = descriptor_words(DescriptorWords::Major9)[4];
            assert(w == "\u{394}9"@);
            assert(w[0] == '\u{394}');
            if matches_at(t, 0, t.len() as int, w) {
                assert(t.subrange(0, w.len() as int)[0] == t[0]);
            }
        }
        assert(!matches_at(t, 0, t.len() as int, descriptor_words(DescriptorWords::Major9)[5])) by {
            let w = descriptor_words(DescriptorWords::Major9)[5];
            assert(w == "\u{25b3}9"@);
            assert(w[0] == '\u{25b3}');
            if matches_at(t, 0, t.len() as int, w) {
                assert(t.subrange(0, w.len() as int)[0] == t[0]);
            }
        }
        lemma_first_match_none(t, 0, t.len() as int, descriptor_words(DescriptorWords::Major9));
        assert(descriptor_words(DescriptorWords::Major7)[0] == "maj7"@);
        assert(matches_at(t, 0, t.len() as int, descriptor_words(DescriptorWords::Major7)[0])) by {
            assert(t.subrange(0, 4) =~= h);
            assert(descriptor_words(DescriptorWords::Major7)[0] =~= h);
        }
    }
}

/// The minor mark a spec is printed with reads back as minor.
proof fn lemma_minor_reads_back(spec: ChordSpec)
    requires
        spec.quality == Quality::Minor,
        !spec.alt,
        !special_half_dim(spec),
        !crate::symbol::numbered_harmony(spec) || (spec.quality != Quality::Sus2 && spec.quality != Quality::Sus4),
    ensures
        lead_quality(suffix_text(spec)) == Some((spec.quality, quality_text(spec).len() as int)),
{
    reveal_strlit("maj13");
    reveal_strlit("Maj13");
    reveal_strlit("MAJ13");
    reveal_strlit("M13");
    reveal_strlit("\u{394}13");
    reveal_strlit("\u{25b3}13");
    reveal_strlit("maj11");
    reveal_strlit("Maj11");
    reveal_strlit("MAJ11");
    reveal_strlit("M11");
    reveal_strlit("\u{394}11");
    reveal_strlit("\u{25b3}11");
    reveal_strlit("maj9");
    reveal_strlit("Maj9");
    reveal_strlit("MAJ9");
    reveal_strlit("M9");
    reveal_strlit("\u{394}9");
    reveal_strlit("\u{25b3}9");
    reveal_strlit("maj7");
    reveal_strlit("Maj7");
    reveal_strlit("MAJ7");
    reveal_strlit("M7");
    reveal_strlit("\u{394}7");
    reveal_strlit("\u{25b3}7");
    reveal_strlit("\u{394}");
    reveal_strlit("\u{25b3}");
    reveal_strlit("maj");
    reveal_strlit("Maj");
    reveal_strlit("MAJ");
    reveal_strlit("min");
    reveal_strlit("Min");
    reveal_strlit("MIN");
    reveal_strlit("m");
    reveal_strlit("-");
    let t = suffix_text(spec);
    lemma_rest_start(spec);
    assert(t == quality_text(spec) + suffix_rest(spec));
    assert(!matches_at(t, 0, t.len() as int, descriptor_words(DescriptorWords::MajorExtension)[0])) by {
        let w = descriptor_words(DescriptorWords::MajorExtension)[0];
        assert(w == "maj13"@);
        if matches_at(t, 0, t.len() as int, w) {
            assert(t.subrange(0, w.len() as int)[0] == t[0]);
            assert(t.subrange(0, w.len() as int)[1] == t[1]);
            assert(t.subrange(0, w.len() as int)[2] == t[2]);
        }
    }
    assert(!matches_at(t, 0, t.len() as int, descriptor_words(DescriptorWords::MajorExtension)[1])) by {
        let w = descriptor_words(DescriptorWords::MajorExtension)[1];
        assert(w == "Maj13"@);
        if matches_at(t, 0, t.len() as int, w) {
            assert(t.subrange(0, w.len() as int)[0] == t[0]);
            assert(t.subrange(0, w.len() as int)[1] == t[1]);
            assert(t.subrange(0, w.len() as int)[2] == t[2]);
        }
    }
    assert(!matches_at(t, 0, t.len() as int, descriptor_words(DescriptorWords::MajorExtension)[2])) by {
        let w = descriptor_words(DescriptorWords::MajorExtension)[2];
        assert(w == "MAJ13"@);
        if matches_at(t, 0, t.len() as int, w) {
            assert(t.subrange(0, w.len() as int)[0] == t[0]);
            assert(t.subrange(0, w.len() as int)[1] == t[1]);
            assert(t.subrange(0, w.len() as int)[2] == t[2]);
        }
    }
    assert(!matches_at(t, 0, t.len() as int, descriptor_words(DescriptorWords::MajorExtension)[3])) by {
        let w = descriptor_words(DescriptorWords::MajorExtension)[3];
        assert(w == "M13"@);
        if matches_at(t, 0, t.len() as int, w) {
            assert(t.subrange(0, w.len() as int)[0] == t[0]);
            assert(t.subrange(0, w.len() as int)[1] == t[1]);
            assert(t.subrange(0, w.len() as int)[2] == t[2]);
        }
    }
    assert(!matches_at(t, 0, t.len() as int, descriptor_words(DescriptorWords::MajorExtension)[4])) by {
        let w = descriptor_words(DescriptorWords::MajorExtension)[4];
        assert(w == "\u{394}13"@);
        if matches_at(t, 0, t.len() as int, w) {
            assert(t.subrange(0, w.len() as int)[0] == t[0]);
            assert(t.subrange(0, w.len() as int)[1] == t[1]);
            assert(t.subrange(0, w.len() as int)[2] == t[2]);
        }
    }
    assert(!matches_at(t, 0, t.len() as int, descriptor_words(DescriptorWords::MajorExtension)[5])) by {
        let w = descriptor_words(DescriptorWords::MajorExtension)[5];
        assert(w == "\u{25b3}13"@);
        if matches_at(t, 0, t.len() as int, w) {
            assert(t.subrange(0, w.len() as int)[0] == t[0]);
            assert(t.subrange(0, w.len() as int)[1] == t[1]);
            assert(t.subrange(0, w.len() as int)[2] == t[2]);
        }
    }
    assert(!matches_at(t, 0, t.len() as int, descriptor_words(DescriptorWords::MajorExtension)[6])) by {
        let w = descriptor_words(DescriptorWords::MajorExtension)[6];
        assert(w == "maj11"@);
        if matches_at(t, 0, t.len() as int, w) {
            assert(t.subrange(0, w.len() as int)[0] == t[0]);
            assert(t.subrange(0, w.len() as int)[1] == t[1]);
            assert(t.subrange(0, w.len() as int)[2] == t[2]);
        }
    }
    assert(!matches_at(t, 0, t.len() as int, descriptor_words(DescriptorWords::MajorExtension)[7])) by {
        let w = descriptor_words(DescriptorWords::MajorExtension)[7];
        assert(w == "Maj11"@);
        if matches_at(t, 0, t.len() as int, w) {
            assert(t.subrange(0, w.len() as int)[0] == t[0]);
            assert(t.subrange(0, w.len() as int)[1] == t[1]);
            assert(t.subrange(0, w.len() as int)[2] == t[2]);
        }
    }
    assert(!matches_at(t, 0, t.len() as int, descriptor_words(DescriptorWords::MajorExtension)[8])) by {
        let w = descriptor_words(DescriptorWords::MajorExtension)[8];
        assert(w == "MAJ11"@);
        if matches_at(t, 0, t.len() as int, w) {
            assert(t.subrange(0, w.len() as int)[0] == t[0]);
            assert(t.subrange(0, w.len() as int)[1] == t[1]);
            assert(t.subrange(0, w.len() as int)[2] == t[2]);
        }
    }
    assert(!matches_at(t, 0, t.len() as int, descriptor_words(DescriptorWords::MajorExtension)[9])) by {
        let w = descriptor_words(DescriptorWords::MajorExtension)[9];
        assert(w == "M11"@);
        if matches_at(t, 0, t.len() as int, w) {
            assert(t.subrange(0, w.len() as int)[0] == t[0]);
            assert(t.subrange(0, w.len() as int)[1] == t[1]);
            assert(t.subrange(0, w.len() as int)[2] == t[2]);
        }
    }
    assert(!matches_at(t, 0, t.len() as int, descriptor_words(DescriptorWords::MajorExtension)[10])) by {
        let w = descriptor_words(DescriptorWords::MajorExtension)[10];
        assert(w == "\u{394}11"@);
        if matches_at(t, 0, t.len() as int, w) {
            assert(t.subrange(0, w.len() as int)[0] == t[0]);
            assert(t.subrange(0, w.len() as int)[1] == t[1]);
            assert(t.subrange(0, w.len() as int)[2] == t[2]);
        }
    }
    assert(!matches_at(t, 0, t.len() as int, descriptor_words(DescriptorWords::MajorExtension)[11])) by {
        let w = descriptor_words(DescriptorWords::MajorExtension)[11];
        assert(w == "\u{25b3}11"@);
        if matches_at(t, 0, t.len() as int, w) {
            assert(t.subrange(0, w.len() as int)[0] == t[0]);
            assert(t.subrange(0, w.len() as int)[1] == t[1]);
            assert(t.subrange(0, w.len() as int)[2] == t[2]);
        }
    }
    assert(!matches_at(t, 0, t.len() as int, descriptor_words(DescriptorWords::MajorExtension)[12])) by {
        let w = descriptor_words(DescriptorWords::MajorExtension)[12];
        assert(w == "maj9"@);
        if matches_at(t, 0, t.len() as int, w) {
            assert(t.subrange(0, w.len() as int)[0] == t[0]);
            assert(t.subrange(0, w.len() as int)[1] == t[1]);
            assert(t.subrange(0, w.len() as int)[2] == t[2]);
        }
    }
    assert(!matches_at(t, 0, t.len() as int, descriptor_words(DescriptorWords::MajorExtension)[13])) by {
        let w = descriptor_words(DescriptorWords::MajorExtension)[13];
        assert(w == "Maj9"@);
        if matches_at(t, 0, t.len() as int, w) {
            assert(t.subrange(0, w.len() as int)[0] == t[0]);
            assert(t.subrange(0, w.len() as int)[1] == t[1]);
            assert(t.subrange(0, w.len() as int)[2] == t[2]);
        }
    }
    assert(!matches_at(t, 0, t.len() as int, descriptor_words(DescriptorWords::MajorExtension)[14])) by {
        let w = descriptor_words(DescriptorWords::MajorExtension)[14];
        assert(w == "MAJ9"@);
        if matches_at(t, 0, t.len() as int, w) {
            assert(t.subrange(0, w.len() as int)[0] == t[0]);
            assert(t.subrange(0, w.len() as int)[1] == t[1]);
            assert(t.subrange(0, w.len() as int)[2] == t[2]);
        }
    }
    assert(!matches_at(t, 0, t.len() as int, descriptor_words(DescriptorWords::MajorExtension)[15])) by {
        let w = descriptor_words(DescriptorWords::MajorExtension)[15];
        assert(w == "M9"@);
        if matches_at(t, 0, t.len() as int, w) {
            assert(t.subrange(0, w.len() as int)[0] == t[0]);
            assert(t.subrange(0, w.len() as int)[1] == t[1]);
        }
    }
    assert(!matches_at(t, 0, t.len() as int, descriptor_words(DescriptorWords::MajorExtension)[16])) by {
        let w = descriptor_words(DescriptorWords::MajorExtension)[16];
        assert(w == "\u{394}9"@);
        if matches_at(t, 0, t.len() as int, w) {
            assert(t.subrange(0, w.len() as int)[0] == t[0]);
            assert(t.subrange(0, w.len() as int)[1] == t[1]);
        }
    }
    assert(!matches_at(t, 0, t.len() as int, descriptor_words(DescriptorWords::MajorExtension)[17])) by {
        let w = descriptor_words(DescriptorWords::MajorExtension)[17];
        assert(w == "\u{25b3}9"@);
        if matches_at(t, 0, t.len() as int, w) {
            assert(t.subrange(0, w.len() as int)[0] == t[0]);
            assert(t.subrange(0, w.len() as int)[1] == t[1]);
        }
    }
    assert(!matches_at(t, 0, t.len() as int, descriptor_words(DescriptorWords::MajorExtension)[18])) by {
        let w = descriptor_words(DescriptorWords::MajorExtension)[18];
        assert(w == "maj7"@);
        if matches_at(t, 0, t.len() as int, w) {
            assert(t.subrange(0, w.len() as int)[0] == t[0]);
            assert(t.subrange(0, w.len() as int)[1] == t[1]);
            assert(t.subrange(0, w.len() as int)[2] == t[2]);
        }
    }
    assert(!matches_at(t, 0, t.len() as int, descriptor_words(DescriptorWords::MajorExtension)[19])) by {
        let w = descriptor_words(DescriptorWords::MajorExtension)[19];
        assert(w == "Maj7"@);
        if matches_at(t, 0, t.len() as int, w) {
            assert(t.subrange(0, w.len() as int)[0] == t[0]);
            assert(t.subrange(0, w.len() as int)[1] == t[1]);
            assert(t.subrange(0, w.len() as int)[2] == t[2]);
        }
    }
    assert(!matches_at(t, 0, t.len() as int, descriptor_words(DescriptorWords::MajorExtension)[20])) by {
        let w = descriptor_words(DescriptorWords::MajorExtension)[20];
        assert(w == "MAJ7"@);
        if matches_at(t, 0, t.len() as int, w) {
            assert(t.subrange(0, w.len() as int)[0] == t[0]);
            assert(t.subrange(0, w.len() as int)[1] == t[1]);
            assert(t.subrange(0, w.len() as int)[2] == t[2]);
        }
    }
    assert(!matches_at(t, 0, t.len() as int, descriptor_words(DescriptorWords::MajorExtension)[21])) by {
        let w = descriptor_words(DescriptorWords::MajorExtension)[21];
        assert(w == "M7"@);
        if matches_at(t, 0, t.len() as int, w) {
            assert(t.subrange(0, w.len() as int)[0] == t[0]);
            assert(t.subrange(0, w.len() as int)[1] == t[1]);
        }
    }
    assert(!matches_at(t, 0, t.len() as int, descriptor_words(DescriptorWords::MajorExtension)[22])) by {
        let w = descriptor_words(DescriptorWords::MajorExtension)[22];
        assert(w == "\u{394}7"@);
        if matches_at(t, 0, t.len() as int, w) {
            assert(t.subrange(0, w.len() as int)[0] == t[0]);
            assert(t.subrange(0, w.len() as int)[1] == t[1]);
        }
    }
    assert(!matches_at(t, 0, t.len() as int, descriptor_words(DescriptorWords::MajorExtension)[23])) by {
        let w = descriptor_words(DescriptorWords::MajorExtension)[23];
        assert(w == "\u{25b3}7"@);
        if matches_at(t, 0, t.len() as int, w) {
            assert(t.subrange(0, w.len() as int)[0] == t[0]);
            assert(t.subrange(0, w.len() as int)[1] == t[1]);
        }
    }
    assert(!matches_at(t, 0, t.len() as int, descriptor_words(DescriptorWords::MajorExtension)[24])) by {
        let w = descriptor_words(DescriptorWords::MajorExtension)[24];
        assert(w == "\u{394}"@);
        if matches_at(t, 0, t.len() as int, w) {
            assert(t.subrange(0, w.len() as int)[0] == t[0]);
        }
    }
    assert(!matches_at(t, 0, t.len() as int, descriptor_words(DescriptorWords::MajorExtension)[25])) by {
        let w = descriptor_words(DescriptorWords::MajorExtension)[25];
        assert(w == "\u{25b3}"@);
        if matches_at(t, 0, t.len() as int, w) {
            assert(t.subrange(0, w.len() as int)[0] == t[0]);
        }
    }
    lemma_first_match_none(t, 0, t.len() as int, descriptor_words(DescriptorWords::MajorExtension));
    assert(!matches_at(t, 0, t.len() as int, descriptor_words(DescriptorWords::MajorWord)[0])) by {
        let w = descriptor_words(DescriptorWords::MajorWord)[0];
        assert(w == "maj"@);
        if matches_at(t, 0, t.len() as int, w) {
            assert(t.subrange(0, w.len() as int)[0] == t[0]);
            assert(t.subrange(0, w.len() as int)[1] == t[1]);
            assert(t.subrange(0, w.len() as int)[2] == t[2]);
        }
    }
    assert(!matches_at(t, 0, t.len() as int, descriptor_words(DescriptorWords::MajorWord)[1])) by {
        let w = descriptor_words(DescriptorWords::MajorWord)[1];
        assert(w == "Maj"@);
        if matches_at(t, 0, t.len() as int, w) {
            assert(t.subrange(0, w.len() as int)[0] == t[0]);
            assert(t.subrange(0, w.len() as int)[1] == t[1]);
            assert(t.subrange(0, w.len() as int)[2] == t[2]);
        }
    }
    assert(!matches_at(t, 0, t.len() as int, descriptor_words(DescriptorWords::MajorWord)[2])) by {
        let w = descriptor_words(DescriptorWords::MajorWord)[2];
        assert(w == "MAJ"@);
        if matches_at(t, 0, t.len() as int, w) {
            assert(t.subrange(0, w.len() as int)[0] == t[0]);
            assert(t.subrange(0, w.len() as int)[1] == t[1]);
            assert(t.subrange(0, w.len() as int)[2] == t[2]);
        }
    }
    lemma_first_match_none(t, 0, t.len() as int, descriptor_words(DescriptorWords::MajorWord));
    assert(!matches_at(t, 0, t.len() as int, descriptor_words(DescriptorWords::MinorWord)[0])) by {
        let w = descriptor_words(DescriptorWords::MinorWord)[0];
        assert(w == "min"@);
        if matches_at(t, 0, t.len() as int, w) {
            assert(t.subrange(0, w.len() as int)[0] == t[0]);
            assert(t.subrange(0, w.len() as int)[1] == t[1]);
            assert(t.subrange(0, w.len() as int)[2] == t[2]);
        }
    }
    assert(!matches_at(t, 0, t.len() as int, descriptor_words(DescriptorWords::MinorWord)[1])) by {
        let w = descriptor_words(DescriptorWords::MinorWord)[1];
        assert(w == "Min"@);
        if matches_at(t, 0, t.len() as int, w) {
            assert(t.subrange(0, w.len() as int)[0] == t[0]);
            assert(t.subrange(0, w.len() as int)[1] == t[1]);
            assert(t.subrange(0, w.len() as int)[2] == t[2]);
        }
    }
    assert(!matches_at(t, 0, t.len() as int, descriptor_words(DescriptorWords::MinorWord)[2])) by {
        let w = descriptor_words(DescriptorWords::MinorWord)[2];
        assert(w == "MIN"@);
        if matches_at(t, 0, t.len() as int, w) {
            assert(t.subrange(0, w.len() as int)[0] == t[0]);
            assert(t.subrange(0, w.len() as int)[1] == t[1]);
            assert(t.subrange(0, w.len() as int)[2] == t[2]);
        }
    }
    assert(matches_at(t, 0, t.len() as int, descriptor_words(DescriptorWords::MinorWord)[3])) by {
        assert(descriptor_words(DescriptorWords::MinorWord)[3] == "m"@);
        assert(t.subrange(0, 1) =~= "m"@);
    }
    lemma_first_match_at(t, 0, t.len() as int, descriptor_words(DescriptorWords::MinorWord), 3);
}

/// The diminished mark a spec is printed with reads back as diminished.
proof fn lemma_diminished_reads_back(spec: ChordSpec)
    requires
        spec.quality == Quality::Diminished,
        !spec.alt,
        !special_half_dim(spec),
        !crate::symbol::numbered_harmony(spec) || (spec.quality != Quality::Sus2 && spec.quality != Quality::Sus4),
    ensures
        lead_quality(suffix_text(spec)) == Some((spec.quality, quality_text(spec).len() as int)),
{
    reveal_strlit("maj13");
    reveal_strlit("Maj13");
    reveal_strlit("MAJ13");
    reveal_strlit("M13");
    reveal_strlit("\u{394}13");
    reveal_strlit("\u{25b3}13");
    reveal_strlit("maj11");
    reveal_strlit("Maj11");
    reveal_strlit("MAJ11");
    reveal_strlit("M11");
    reveal_strlit("\u{394}11");
    reveal_strlit("\u{25b3}11");
    reveal_strlit("maj9");
    reveal_strlit("Maj9");
    reveal_strlit("MAJ9");
    reveal_strlit("M9");
    reveal_strlit("\u{394}9");
    reveal_strlit("\u{25b3}9");
    reveal_strlit("maj7");
    reveal_strlit("Maj7");
    reveal_strlit("MAJ7");
    reveal_strlit("M7");
    reveal_strlit("\u{394}7");
    reveal_strlit("\u{25b3}7");
    reveal_strlit("\u{394}");
    reveal_strlit("\u{25b3}");
    reveal_strlit("maj");
    reveal_strlit("Maj");
    reveal_strlit("MAJ");
    reveal_strlit("min");
    reveal_strlit("Min");
    reveal_strlit("MIN");
    reveal_strlit("m");
    reveal_strlit("-");
    reveal_strlit("M");
    reveal_strlit("dim");
    reveal_strlit("Dim");
    reveal_strlit("DIM");
    reveal_strlit("o");
    reveal_strlit("\u{b0}");
    let t = suffix_text(spec);
    lemma_rest_start(spec);
    assert(t == quality_text(spec) + suffix_rest(spec));
    assert(!matches_at(t, 0, t.len() as int, descriptor_words(DescriptorWords::MajorExtension)[0])) by {
        let w = descriptor_words(DescriptorWords::MajorExtension)[0];
        assert(w == "maj13"@);
        if matches_at(t, 0, t.len() as int, w) {
            assert(t.subrange(0, w.len() as int)[0] == t[0]);
            assert(t.subrange(0, w.len() as int)[1] == t[1]);
            assert(t.subrange(0, w.len() as int)[2] == t[2]);
        }
    }
    assert(!matches_at(t, 0, t.len() as int, descriptor_words(DescriptorWords::MajorExtension)[1])) by {
        let w = descriptor_words(DescriptorWords::MajorExtension)[1];
        assert(w == "Maj13"@);
        if matches_at(t, 0, t.len() as int, w) {
            assert(t.subrange(0, w.len() as int)[0] == t[0]);
            assert(t.subrange(0, w.len() as int)[1] == t[1]);
            assert(t.subrange(0, w.len() as int)[2] == t[2]);
        }
    }
    assert(!matches_at(t, 0, t.len() as int, descriptor_words(DescriptorWords::MajorExtension)[2])) by {
        let w = descriptor_words(DescriptorWords::MajorExtension)[2];
        assert(w == "MAJ13"@);
        if matches_at(t, 0, t.len() as int, w) {
            assert(t.subrange(0, w.len() as int)[0] == t[0]);
            assert(t.subrange(0, w.len() as int)[1] == t[1]);
            assert(t.subrange(0, w.len() as int)[2] == t[2]);
        }
    }
    assert(!matches_at(t, 0, t.len() as int, descriptor_words(DescriptorWords::MajorExtension)[3])) by {
        let w = descriptor_words(DescriptorWords::MajorExtension)[3];
        assert(w == "M13"@);
        if matches_at(t, 0, t.len() as int, w) {
            assert(t.subrange(0, w.len() as int)[0] == t[0]);
            assert(t.subrange(0, w.len() as int)[1] == t[1]);
            assert(t.subrange(0, w.len() as int)[2] == t[2]);
        }
    }
    assert(!matches_at(t, 0, t.len() as int, descriptor_words(DescriptorWords::MajorExtension)[4])) by {
        let w = descriptor_words(DescriptorWords::MajorExtension)[4];
        assert(w == "\u{394}13"@);
        if matches_at(t, 0, t.len() as int, w) {
            assert(t.subrange(0, w.len() as int)[0] == t[0]);
            assert(t.subrange(0, w.len() as int)[1] == t[1]);
            assert(t.subrange(0, w.len() as int)[2] == t[2]);
        }
    }
    assert(!matches_at(t, 0, t.len() as int, descriptor_words(DescriptorWords::MajorExtension)[5])) by {
        let w = descriptor_words(DescriptorWords::MajorExtension)[5];
        assert(w == "\u{25b3}13"@);
        if matches_at(t, 0, t.len() as int, w) {
            assert(t.subrange(0, w.len() as int)[0] == t[0]);
            assert(t.subrange(0, w.len() as int)[1] == t[1]);
            assert(t.subrange(0, w.len() as int)[2] == t[2]);
        }
    }
    assert(!matches_at(t, 0, t.len() as int, descriptor_words(DescriptorWords::MajorExtension)[6])) by {
        let w = descriptor_words(DescriptorWords::MajorExtension)[6];
        assert(w == "maj11"@);
        if matches_at(t, 0, t.len() as int, w) {
            assert(t.subrange(0, w.len() as int)[0] == t[0]);
            assert(t.subrange(0, w.len() as int)[1] == t[1]);
            assert(t.subrange(0, w.len() as int)[2] == t[2]);
        }
    }
    assert(!matches_at(t, 0, t.len() as int, descriptor_words(DescriptorWords::MajorExtension)[7])) by {
        let w = descriptor_words(DescriptorWords::MajorExtension)[7];
        assert(w == "Maj11"@);
        if matches_at(t, 0, t.len() as int, w) {
            assert(t.subrange(0, w.len() as int)[0] == t[0]);
            assert(t.subrange(0, w.len() as int)[1] == t[1]);
            assert(t.subrange(0, w.len() as int)[2] == t[2]);
        }
    }
    assert(!matches_at(t, 0, t.len() as int, descriptor_words(DescriptorWords::MajorExtension)[8])) by {
        let w = descriptor_words(DescriptorWords::MajorExtension)[8];
        assert(w == "MAJ11"@);
        if matches_at(t, 0, t.len() as int, w) {
            assert(t.subrange(0, w.len() as int)[0] == t[0]);
            assert(t.subrange(0, w.len() as int)[1] == t[1]);
            assert(t.subrange(0, w.len() as int)[2] == t[2]);
        }
    }
    assert(!matches_at(t, 0, t.len() as int, descriptor_words(DescriptorWords::MajorExtension)[9])) by {
        let w = descriptor_words(DescriptorWords::MajorExtension)[9];
        assert(w == "M11"@);
        if matches_at(t, 0, t.len() as int, w) {
            assert(t.subrange(0, w.len() as int)[0] == t[0]);
            assert(t.subrange(0, w.len() as int)[1] == t[1]);
            assert(t.subrange(0, w.len() as int)[2] == t[2]);
        }
    }
    assert(!matches_at(t, 0, t.len() as int, descriptor_words(DescriptorWords::MajorExtension)[10])) by {
        let w = descriptor_words(DescriptorWords::MajorExtension)[10];
        assert(w == "\u{394}11"@);
        if matches_at(t, 0, t.len() as int, w) {
            assert(t.subrange(0, w.len() as int)[0] == t[0]);
            assert(t.subrange(0, w.len() as int)[1] == t[1]);
            assert(t.subrange(0, w.len() as int)[2] == t[2]);
        }
    }
    assert(!matches_at(t, 0, t.len() as int, descriptor_words(DescriptorWords::MajorExtension)[11])) by {
        let w = descriptor_words(DescriptorWords::MajorExtension)[11];
        assert(w == "\u{25b3}11"@);
        if matches_at(t, 0, t.len() as int, w) {
            assert(t.subrange(0, w.len() as int)[0] == t[0]);
            assert(t.subrange(0, w.len() as int)[1] == t[1]);
            assert(t.subrange(0, w.len() as int)[2] == t[2]);
        }
    }
    assert(!matches_at(t, 0, t.len() as int, descriptor_words(DescriptorWords::MajorExtension)[12])) by {
        let w = descriptor_words(DescriptorWords::MajorExtension)[12];
        assert(w == "maj9"@);
        if matches_at(t, 0, t.len() as int, w) {
            assert(t.subrange(0, w.len() as int)[0] == t[0]);
            assert(t.subrange(0, w.len() as int)[1] == t[1]);
            assert(t.subrange(0, w.len() as int)[2] == t[2]);
        }
    }
    assert(!matches_at(t, 0, t.len() as int, descriptor_words(DescriptorWords::MajorExtension)[13])) by {
        let w = descriptor_words(DescriptorWords::MajorExtension)[13];
        assert(w == "Maj9"@);
        if matches_at(t, 0, t.len() as int, w) {
            assert(t.subrange(0, w.len() as int)[0] == t[0]);
            assert(t.subrange(0, w.len() as int)[1] == t[1]);
            assert(t.subrange(0, w.len() as int)[2] == t[2]);
        }
    }
    assert(!matches_at(t, 0, t.len() as int, descriptor_words(DescriptorWords::MajorExtension)[14])) by {
        let w = descriptor_words(DescriptorWords::MajorExtension)[14];
        assert(w == "MAJ9"@);
        if matches_at(t, 0, t.len() as int, w) {
            assert(t.subrange(0, w.len() as int)[0] == t[0]);
            assert(t.subrange(0, w.len() as int)[1] == t[1]);
            assert(t.subrange(0, w.len() as int)[2] == t[2]);
        }
    }
    assert(!matches_at(t, 0, t.len() as int, descriptor_words(DescriptorWords::MajorExtension)[15])) by {
        let w = descriptor_words(DescriptorWords::MajorExtension)[15];
        assert(w == "M9"@);
        if matches_at(t, 0, t.len() as int, w) {
            assert(t.subrange(0, w.len() as int)[0] == t[0]);
            assert(t.subrange(0, w.len() as int)[1] == t[1]);
        }
    }
    assert(!matches_at(t, 0, t.len() as int, descriptor_words(DescriptorWords::MajorExtension)[16])) by {
        let w = descriptor_words(DescriptorWords::MajorExtension)[16];
        assert(w == "\u{394}9"@);
        if matches_at(t, 0, t.len() as int, w) {
            assert(t.subrange(0, w.len() as int)[0] == t[0]);
            assert(t.subrange(0, w.len() as int)[1] == t[1]);
        }
    }
    assert(!matches_at(t, 0, t.len() as int, descriptor_words(DescriptorWords::MajorExtension)[17])) by {
        let w = descriptor_words(DescriptorWords::MajorExtension)[17];
        assert(w == "\u{25b3}9"@);
        if matches_at(t, 0, t.len() as int, w) {
            assert(t.subrange(0, w.len() as int)[0] == t[0]);
            assert(t.subrange(0, w.len() as int)[1] == t[1]);
        }
    }
    assert(!matches_at(t, 0, t.len() as int, descriptor_words(DescriptorWords::MajorExtension)[18])) by {
        let w = descriptor_words(DescriptorWords::MajorExtension)[18];
        assert(w == "maj7"@);
        if matches_at(t, 0, t.len() as int, w) {
            assert(t.subrange(0, w.len() as int)[0] == t[0]);
            assert(t.subrange(0, w.len() as int)[1] == t[1]);
            assert(t.subrange(0, w.len() as int)[2] == t[2]);
        }
    }
    assert(!matches_at(t, 0, t.len() as int, descriptor_words(DescriptorWords::MajorExtension)[19])) by {
        let w = descriptor_words(DescriptorWords::MajorExtension)[19];
        assert(w == "Maj7"@);
        if matches_at(t, 0, t.len() as int, w) {
            assert(t.subrange(0, w.len() as int)[0] == t[0]);
            assert(t.subrange(0, w.len() as int)[1] == t[1]);
            assert(t.subrange(0, w.len() as int)[2] == t[2]);
        }
    }
    assert(!matches_at(t, 0, t.len() as int, descriptor_words(DescriptorWords::MajorExtension)[20])) by {
        let w = descriptor_words(DescriptorWords::MajorExtension)[20];
        assert(w == "MAJ7"@);
        if matches_at(t, 0, t.len() as int, w) {
            assert(t.subrange(0, w.len() as int)[0] == t[0]);
            assert(t.subrange(0, w.len() as int)[1] == t[1]);
            assert(t.subrange(0, w.len() as int)[2] == t[2]);
        }
    }
    assert(!matches_at(t, 0, t.len() as int, descriptor_words(DescriptorWords::MajorExtension)[21])) by {
        let w = descriptor_words(DescriptorWords::MajorExtension)[21];
        assert(w == "M7"@);
        if matches_at(t, 0, t.len() as int, w) {
            assert(t.subrange(0, w.len() as int)[0] == t[0]);
            assert(t.subrange(0, w.len() as int)[1] == t[1]);
        }
    }
    assert(!matches_at(t, 0, t.len() as int, descriptor_words(DescriptorWords::MajorExtension)[22])) by {
        let w = descriptor_words(DescriptorWords::MajorExtension)[22];
        assert(w == "\u{394}7"@);
        if matches_at(t, 0, t.len() as int, w) {
            assert(t.subrange(0, w.len() as int)[0] == t[0]);
            assert(t.subrange(0, w.len() as int)[1] == t[1]);
        }
    }
    assert(!matches_at(t, 0, t.len() as int, descriptor_words(DescriptorWords::MajorExtension)[23])) by {
        let w = descriptor_words(DescriptorWords::MajorExtension)[23];
        assert(w == "\u{25b3}7"@);
        if matches_at(t, 0, t.len() as int, w) {
            assert(t.subrange(0, w.len() as int)[0] == t[0]);
            assert(t.subrange(0, w.len() as int)[1] == t[1]);
        }
    }
    assert(!matches_at(t, 0, t.len() as int, descriptor_words(DescriptorWords::MajorExtension)[24])) by {
        let w = descriptor_words(DescriptorWords::MajorExtension)[24];
        assert(w == "\u{394}"@);
        if matches_at(t, 0, t.len() as int, w) {
            assert(t.subrange(0, w.len() as int)[0] == t[0]);
        }
    }
    assert(!matches_at(t, 0, t.len() as int, descriptor_words(DescriptorWords::MajorExtension)[25])) by {
        let w = descriptor_words(DescriptorWords::MajorExtension)[25];
        assert(w == "\u{25b3}"@);
        if matches_at(t, 0, t.len() as int, w) {
            assert(t.subrange(0, w.len() as int)[0] == t[0]);
        }
    }
    lemma_first_match_none(t, 0, t.len() as int, descriptor_words(DescriptorWords::MajorExtension));
    assert(!matches_at(t, 0, t.len() as int, descriptor_words(DescriptorWords::MajorWord)[0])) by {
        let w = descriptor_words(DescriptorWords::MajorWord)[0];
        assert(w == "maj"@);
        if matches_at(t, 0, t.len() as int, w) {
            assert(t.subrange(0, w.len() as int)[0] == t[0]);
            assert(t.subrange(0, w.len() as int)[1] == t[1]);
            assert(t.subrange(0, w.len() as int)[2] == t[2]);
        }
    }
    assert(!matches_at(t, 0, t.len() as int, descriptor_words(DescriptorWords::MajorWord)[1])) by {
        let w = descriptor_words(DescriptorWords::MajorWord)[1];
        assert(w == "Maj"@);
        if matches_at(t, 0, t.len() as int, w) {
            assert(t.subrange(0, w.len() as int)[0] == t[0]);
            assert(t.subrange(0, w.len() as int)[1] == t[1]);
            assert(t.subrange(0, w.len() as int)[2] == t[2]);
        }
    }
    assert(!matches_at(t, 0, t.len() as int, descriptor_words(DescriptorWords::MajorWord)[2])) by {
        let w = descriptor_words(DescriptorWords::MajorWord)[2];
        assert(w == "MAJ"@);
        if matches_at(t, 0, t.len() as int, w) {
            assert(t.subrange(0, w.len() as int)[0] == t[0]);
            assert(t.subrange(0, w.len() as int)[1] == t[1]);
            assert(t.subrange(0, w.len() as int)[2] == t[2]);
        }
    }
    lemma_first_match_none(t, 0, t.len() as int, descriptor_words(DescriptorWords::MajorWord));
    assert(!matches_at(t, 0, t.len() as int, descriptor_words(DescriptorWords::MinorWord)[0])) by {
        let w = descriptor_words(DescriptorWords::MinorWord)[0];
        assert(w == "min"@);
        if matches_at(t, 0, t.len() as int, w) {
            assert(t.subrange(0, w.len() as int)[0] == t[0]);
            assert(t.subrange(0, w.len() as int)[1] == t[1]);
            assert(t.subrange(0, w.len() as int)[2] == t[2]);
        }
    }
    assert(!matches_at(t, 0, t.len() as int, descriptor_words(DescriptorWords::MinorWord)[1])) by {
        let w = descriptor_words(DescriptorWords::MinorWord)[1];
        assert(w == "Min"@);
        if matches_at(t, 0, t.len() as int, w) {
            assert(t.subrange(0, w.len() as int)[0] == t[0]);
            assert(t.subrange(0, w.len() as int)[1] == t[1]);
            assert(t.subrange(0, w.len() as int)[2] == t[2]);
        }
    }
    assert(!matches_at(t, 0, t.len() as int, descriptor_words(DescriptorWords::MinorWord)[2])) by {
        let w = descriptor_words(DescriptorWords::MinorWord)[2];
        assert(w == "MIN"@);
        if matches_at(t, 0, t.len() as int, w) {
            assert(t.subrange(0, w.len() as int)[0] == t[0]);
            assert(t.subrange(0, w.len() as int)[1] == t[1]);
            assert(t.subrange(0, w.len() as int)[2] == t[2]);
        }
    }
    assert(!matches_at(t, 0, t.len() as int, descriptor_words(DescriptorWords::MinorWord)[3])) by {
        let w = descriptor_words(DescriptorWords::MinorWord)[3];
        assert(w == "m"@);
        if matches_at(t, 0, t.len() as int, w) {
            assert(t.subrange(0, w.len() as int)[0] == t[0]);
        }
    }
    assert(!matches_at(t, 0, t.len() as int, descriptor_words(DescriptorWords::MinorWord)[4])) by {
        let w = descriptor_words(DescriptorWords::MinorWord)[4];
        assert(w == "-"@);
        if matches_at(t, 0, t.len() as int, w) {
            assert(t.subrange(0, w.len() as int)[0] == t[0]);
        }
    }
    lemma_first_match_none(t, 0, t.len() as int, descriptor_words(DescriptorWords::MinorWord));
    assert(!matches_at(t, 0, t.len() as int, descriptor_words(DescriptorWords::MajorLetter)[0])) by {
        let w = descriptor_words(DescriptorWords::MajorLetter)[0];
        assert(w == "M"@);
        if matches_at(t, 0, t.len() as int, w) {
            assert(t.subrange(0, w.len() as int)[0] == t[0]);
        }
    }
    lemma_first_match_none(t, 0, t.len() as int, descriptor_words(DescriptorWords::MajorLetter));
    assert(matches_at(t, 0, t.len() as int, descriptor_words(DescriptorWords::Diminished)[0])) by {
        assert(descriptor_words(DescriptorWords::Diminished)[0] == "dim"@);
        assert(t.subrange(0, 3) =~= "dim"@);
    }
}

/// The augmented mark a spec is printed with reads back as augmented.
proof fn lemma_augmented_reads_back(spec: ChordSpec)
    requires
        spec.quality == Quality::Augmented,
        !spec.alt,
        !special_half_dim(spec),
        !crate::symbol::numbered_harmony(spec) || (spec.quality != Quality::Sus2 && spec.quality != Quality::Sus4),
    ensures
        lead_quality(suffix_text(spec)) == Some((spec.quality, quality_text(spec).len() as int)),
{
    reveal_strlit("maj13");
    reveal_strlit("Maj13");
    reveal_strlit("MAJ13");
    reveal_strlit("M13");
    reveal_strlit("\u{394}13");
    reveal_strlit("\u{25b3}13");
    reveal_strlit("maj11");
    reveal_strlit("Maj11");
    reveal_strlit("MAJ11");
    reveal_strlit("M11");
    reveal_strlit("\u{394}11");
    reveal_strlit("\u{25b3}11");
    reveal_strlit("maj9");
    reveal_strlit("Maj9");
    reveal_strlit("MAJ9");
    reveal_strlit("M9");
    reveal_strlit("\u{394}9");
    reveal_strlit("\u{25b3}9");
    reveal_strlit("maj7");
    reveal_strlit("Maj7");
    reveal_strlit("MAJ7");
    reveal_strlit("M7");
    reveal_strlit("\u{394}7");
    reveal_strlit("\u{25b3}7");
    reveal_strlit("\u{394}");
    reveal_strlit("\u{25b3}");
    reveal_strlit("maj");
    reveal_strlit("Maj");
    reveal_strlit("MAJ");
    reveal_strlit("min");
    reveal_strlit("Min");
    reveal_strlit("MIN");
    reveal_strlit("m");
    reveal_strlit("-");
    reveal_strlit("M");
    reveal_strlit("dim");
    reveal_strlit("Dim");
    reveal_strlit("DIM");
    reveal_strlit("o");
    reveal_strlit("\u{b0}");
    reveal_strlit("aug");
    reveal_strlit("Aug");
    reveal_strlit("AUG");
    reveal_strlit("+");
    let t = suffix_text(spec);
    lemma_rest_start(spec);
    assert(t == quality_text(spec) + suffix_rest(spec));
    assert(!matches_at(t, 0, t.len() as int, descriptor_words(DescriptorWords::MajorExtension)[0])) by {
        let w = descriptor_words(DescriptorWords::MajorExtension)[0];
        assert(w == "maj13"@);
        if matches_at(t, 0, t.len() as int, w) {
            assert(t.subrange(0, w.len() as int)[0] == t[0]);
            assert(t.subrange(0, w.len() as int)[1] == t[1]);
            assert(t.subrange(0, w.len() as int)[2] == t[2]);
        }
    }
    assert(!matches_at(t, 0, t.len() as int, descriptor_words(DescriptorWords::MajorExtension)[1])) by {
        let w = descriptor_words(DescriptorWords::MajorExtension)[1];
        assert(w == "Maj13"@);
        if matches_at(t, 0, t.len() as int, w) {
            assert(t.subrange(0, w.len() as int)[0] == t[0]);
            assert(t.subrange(0, w.len() as int)[1] == t[1]);
            assert(t.subrange(0, w.len() as int)[2] == t[2]);
        }
    }
    assert(!matches_at(t, 0, t.len() as int, descriptor_words(DescriptorWords::MajorExtension)[2])) by {
        let w = descriptor_words(DescriptorWords::MajorExtension)[2];
        assert(w == "MAJ13"@);
        if matches_at(t, 0, t.len() as int, w) {
            assert(t.subrange(0, w.len() as int)[0] == t[0]);
            assert(t.subrange(0, w.len() as int)[1] == t[1]);
            assert(t.subrange(0, w.len() as int)[2] == t[2]);
        }
    }
    assert(!matches_at(t, 0, t.len() as int, descriptor_words(DescriptorWords::MajorExtension)[3])) by {
        let w = descriptor_words(DescriptorWords::MajorExtension)[3];
        assert(w == "M13"@);
        if matches_at(t, 0, t.len() as int, w) {
            assert(t.subrange(0, w.len() as int)[0] == t[0]);
            assert(t.subrange(0, w.len() as int)[1] == t[1]);
            assert(t.subrange(0, w.len() as int)[2] == t[2]);
        }
    }
    assert(!matches_at(t, 0, t.len() as int, descriptor_words(DescriptorWords::MajorExtension)[4])) by {
        let w = descriptor_words(DescriptorWords::MajorExtension)[4];
        assert(w == "\u{394}13"@);
        if matches_at(t, 0, t.len() as int, w) {
            assert(t.subrange(0, w.len() as int)[0] == t[0]);
            assert(t.subrange(0, w.len() as int)[1] == t[1]);
            assert(t.subrange(0, w.len() as int)[2] == t[2]);
        }
    }
    assert(!matches_at(t, 0, t.len() as int, descriptor_words(DescriptorWords::MajorExtension)[5])) by {
        let w = descriptor_words(DescriptorWords::MajorExtension)[5];
        assert(w == "\u{25b3}13"@);
        if matches_at(t, 0, t.len() as int, w) {
            assert(t.subrange(0, w.len() as int)[0] == t[0]);
            assert(t.subrange(0, w.len() as int)[1] == t[1]);
            assert(t.subrange(0, w.len() as int)[2] == t[2]);
        }
    }
    assert(!matches_at(t, 0, t.len() as int, descriptor_words(DescriptorWords::MajorExtension)[6])) by {
        let w = descriptor_words(DescriptorWords::MajorExtension)[6];
        assert(w == "maj11"@);
        if matches_at(t, 0, t.len() as int, w) {
            assert(t.subrange(0, w.len() as int)[0] == t[0]);
            assert(t.subrange(0, w.len() as int)[1] == t[1]);
            assert(t.subrange(0, w.len() as int)[2] == t[2]);
        }
    }
    assert(!matches_at(t, 0, t.len() as int, descriptor_words(DescriptorWords::MajorExtension)[7])) by {
        let w = descriptor_words(DescriptorWords::MajorExtension)[7];
        assert(w == "Maj11"@);
        if matches_at(t, 0, t.len() as int, w) {
            assert(t.subrange(0, w.len() as int)[0] == t[0]);
            assert(t.subrange(0, w.len() as int)[1] == t[1]);
            assert(t.subrange(0, w.len() as int)[2] == t[2]);
        }
    }
    assert(!matches_at(t, 0, t.len() as int, descriptor_words(DescriptorWords::MajorExtension)[8])) by {
        let w = descriptor_words(DescriptorWords::MajorExtension)[8];
        assert(w == "MAJ11"@);
        if matches_at(t, 0, t.len() as int, w) {
            assert(t.subrange(0, w.len() as int)[0] == t[0]);
            assert(t.subrange(0, w.len() as int)[1] == t[1]);
            assert(t.subrange(0, w.len() as int)[2] == t[2]);
        }
    }
    assert(!matches_at(t, 0, t.len() as int, descriptor_words(DescriptorWords::MajorExtension)[9])) by {
        let w = descriptor_words(DescriptorWords::MajorExtension)[9];
        assert(w == "M11"@);
        if matches_at(t, 0, t.len() as int, w) {
            assert(t.subrange(0, w.len() as int)[0] == t[0]);
            assert(t.subrange(0, w.len() as int)[1] == t[1]);
            assert(t.subrange(0, w.len() as int)[2] == t[2]);
        }
    }
    assert(!matches_at(t, 0, t.len() as int, descriptor_words(DescriptorWords::MajorExtension)[10])) by {
        let w = descriptor_words(DescriptorWords::MajorExtension)[10];
        assert(w == "\u{394}11"@);
        if matches_at(t, 0, t.len() as int, w) {
            assert(t.subrange(0, w.len() as int)[0] == t[0]);
            assert(t.subrange(0, w.len() as int)[1] == t[1]);
            assert(t.subrange(0, w.len() as int)[2] == t[2]);
        }
    }
    assert(!matches_at(t, 0, t.len() as int, descriptor_words(DescriptorWords::MajorExtension)[11])) by {
        let w = descriptor_words(DescriptorWords::MajorExtension)[11];
        assert(w == "\u{25b3}11"@);
        if matches_at(t, 0, t.len() as int, w) {
            assert(t.subrange(0, w.len() as int)[0] == t[0]);
            assert(t.subrange(0, w.len() as int)[1] == t[1]);
            assert(t.subrange(0, w.len() as int)[2] == t[2]);
        }
    }
    assert(!matches_at(t, 0, t.len() as int, descriptor_words(DescriptorWords::MajorExtension)[12])) by {
        let w = descriptor_words(DescriptorWords::MajorExtension)[12];
        assert(w == "maj9"@);
        if matches_at(t, 0, t.len() as int, w) {
            assert(t.subrange(0, w.len() as int)[0] == t[0]);
            assert(t.subrange(0, w.len() as int)[1] == t[1]);
            assert(t.subrange(0, w.len() as int)[2] == t[2]);
        }
    }
    assert(!matches_at(t, 0, t.len() as int, descriptor_words(DescriptorWords::MajorExtension)[13])) by {
        let w = descriptor_words(DescriptorWords::MajorExtension)[13];
        assert(w == "Maj9"@);
        if matches_at(t, 0, t.len() as int, w) {
            assert(t.subrange(0, w.len() as int)[0] == t[0]);
            assert(t.subrange(0, w.len() as int)[1] == t[1]);
            assert(t.subrange(0, w.len() as int)[2] == t[2]);
        }
    }
    assert(!matches_at(t, 0, t.len() as int, descriptor_words(DescriptorWords::MajorExtension)[14])) by {
        let w = descriptor_words(DescriptorWords::MajorExtension)[14];
        assert(w == "MAJ9"@);
        if matches_at(t, 0, t.len() as int, w) {
            assert(t.subrange(0, w.len() as int)[0] == t[0]);
            assert(t.subrange(0, w.len() as int)[1] == t[1]);
            assert(t.subrange(0, w.len() as int)[2] == t[2]);
        }
    }
    assert(!matches_at(t, 0, t.len() as int, descriptor_words(DescriptorWords::MajorExtension)[15])) by {
        let w = descriptor_words(DescriptorWords::MajorExtension)[15];
        assert(w == "M9"@);
        if matches_at(t, 0, t.len() as int, w) {
            assert(t.subrange(0, w.len() as int)[0] == t[0]);
            assert(t.subrange(0, w.len() as int)[1] == t[1]);
        }
    }
    assert(!matches_at(t, 0, t.len() as int, descriptor_words(DescriptorWords::MajorExtension)[16])) by {
        let w = descriptor_words(DescriptorWords::MajorExtension)[16];
        assert(w == "\u{394}9"@);
        if matches_at(t, 0, t.len() as int, w) {
            assert(t.subrange(0, w.len() as int)[0] == t[0]);
            assert(t.subrange(0, w.len() as int)[1] == t[1]);
        }
    }
    assert(!matches_at(t, 0, t.len() as int, descriptor_words(DescriptorWords::MajorExtension)[17])) by {
        let w = descriptor_words(DescriptorWords::MajorExtension)[17];
        assert(w == "\u{25b3}9"@);
        if matches_at(t, 0, t.len() as int, w) {
            assert(t.subrange(0, w.len() as int)[0] == t[0]);
            assert(t.subrange(0, w.len() as int)[1] == t[1]);
        }
    }
    assert(!matches_at(t, 0, t.len() as int, descriptor_words(DescriptorWords::MajorExtension)[18])) by {
        let w = descriptor_words(DescriptorWords::MajorExtension)[18];
        assert(w == "maj7"@);
        if matches_at(t, 0, t.len() as int, w) {
            assert(t.subrange(0, w.len() as int)[0] == t[0]);
            assert(t.subrange(0, w.len() as int)[1] == t[1]);
            assert(t.subrange(0, w.len() as int)[2] == t[2]);
        }
    }
    assert(!matches_at(t, 0, t.len() as int, descriptor_words(DescriptorWords::MajorExtension)[19])) by {
        let w = descriptor_words(DescriptorWords::MajorExtension)[19];
        assert(w == "Maj7"@);
        if matches_at(t, 0, t.len() as int, w) {
            assert(t.subrange(0, w.len() as int)[0] == t[0]);
            assert(t.subrange(0, w.len() as int)[1] == t[1]);
            assert(t.subrange(0, w.len() as int)[2] == t[2]);
        }
    }
    assert(!matches_at(t, 0, t.len() as int, descriptor_words(DescriptorWords::MajorExtension)[20])) by {
        let w = descriptor_words(DescriptorWords::MajorExtension)[20];
        assert(w == "MAJ7"@);
        if matches_at(t, 0, t.len() as int, w) {
            assert(t.subrange(0, w.len() as int)[0] == t[0]);
            assert(t.subrange(0, w.len() as int)[1] == t[1]);
            assert(t.subrange(0, w.len() as int)[2] == t[2]);
        }
    }
    assert(!matches_at(t, 0, t.len() as int, descriptor_words(DescriptorWords::MajorExtension)[21])) by {
        let w = descriptor_words(DescriptorWords::MajorExtension)[21];
        assert(w == "M7"@);
        if matches_at(t, 0, t.len() as int, w) {
            assert(t.subrange(0, w.len() as int)[0] == t[0]);
            assert(t.subrange(0, w.len() as int)[1] == t[1]);
        }
    }
    assert(!matches_at(t, 0, t.len() as int, descriptor_words(DescriptorWords::MajorExtension)[22])) by {
        let w = descriptor_words(DescriptorWords::MajorExtension)[22];
        assert(w == "\u{394}7"@);
        if matches_at(t, 0, t.len() as int, w) {
            assert(t.subrange(0, w.len() as int)[0] == t[0]);
            assert(t.subrange(0, w.len() as int)[1] == t[1]);
        }
    }
    assert(!matches_at(t, 0, t.len() as int, descriptor_words(DescriptorWords::MajorExtension)[23])) by {
        let w = descriptor_words(DescriptorWords::MajorExtension)[23];
        assert(w == "\u{25b3}7"@);
        if matches_at(t, 0, t.len() as int, w) {
            assert(t.subrange(0, w.len() as int)[0] == t[0]);
            assert(t.subrange(0, w.len() as int)[1] == t[1]);
        }
    }
    assert(!matches_at(t, 0, t.len() as int, descriptor_words(DescriptorWords::MajorExtension)[24])) by {
        let w = descriptor_words(DescriptorWords::MajorExtension)[24];
        assert(w == "\u{394}"@);
        if matches_at(t, 0, t.len() as int, w) {
            assert(t.subrange(0, w.len() as int)[0] == t[0]);
        }
    }
    assert(!matches_at(t, 0, t.len() as int, descriptor_words(DescriptorWords::MajorExtension)[25])) by {
        let w = descriptor_words(DescriptorWords::MajorExtension)[25];
        assert(w == "\u{25b3}"@);
        if matches_at(t, 0, t.len() as int, w) {
            assert(t.subrange(0, w.len() as int)[0] == t[0]);
        }
    }
    lemma_first_match_none(t, 0, t.len() as int, descriptor_words(DescriptorWords::MajorExtension));
    assert(!matches_at(t, 0, t.len() as int, descriptor_words(DescriptorWords::MajorWord)[0])) by {
        let w = descriptor_words(DescriptorWords::MajorWord)[0];
        assert(w == "maj"@);
        if matches_at(t, 0, t.len() as int, w) {
            assert(t.subrange(0, w.len() as int)[0] == t[0]);
            assert(t.subrange(0, w.len() as int)[1] == t[1]);
            assert(t.subrange(0, w.len() as int)[2] == t[2]);
        }
    }
    assert(!matches_at(t, 0, t.len() as int, descriptor_words(DescriptorWords::MajorWord)[1])) by {
        let w = descriptor_words(DescriptorWords::MajorWord)[1];
        assert(w == "Maj"@);
        if matches_at(t, 0, t.len() as int, w) {
            assert(t.subrange(0, w.len() as int)[0] == t[0]);
            assert(t.subrange(0, w.len() as int)[1] == t[1]);
            assert(t.subrange(0, w.len() as int)[2] == t[2]);
        }
    }
    assert(!matches_at(t, 0, t.len() as int, descriptor_words(DescriptorWords::MajorWord)[2])) by {
        let w = descriptor_words(DescriptorWords::MajorWord)[2];
        assert(w == "MAJ"@);
        if matches_at(t, 0, t.len() as int, w) {
            assert(t.subrange(0, w.len() as int)[0] == t[0]);
            assert(t.subrange(0, w.len() as int)[1] == t[1]);
            assert(t.subrange(0, w.len() as int)[2] == t[2]);
        }
    }
    lemma_first_match_none(t, 0, t.len() as int, descriptor_words(DescriptorWords::MajorWord));
    assert(!matches_at(t, 0, t.len() as int, descriptor_words(DescriptorWords::MinorWord)[0])) by {
        let w = descriptor_words(DescriptorWords::MinorWord)[0];
        assert(w == "min"@);
        if matches_at(t, 0, t.len() as int, w) {
            assert(t.subrange(0, w.len() as int)[0] == t[0]);
            assert(t.subrange(0, w.len() as int)[1] == t[1]);
            assert(t.subrange(0, w.len() as int)[2] == t[2]);
        }
    }
    assert(!matches_at(t, 0, t.len() as int, descriptor_words(DescriptorWords::MinorWord)[1])) by {
        let w = descriptor_words(DescriptorWords::MinorWord)[1];
        assert(w == "Min"@);
        if matches_at(t, 0, t.len() as int, w) {
            assert(t.subrange(0, w.len() as int)[0] == t[0]);
            assert(t.subrange(0, w.len() as int)[1] == t[1]);
            assert(t.subrange(0, w.len() as int)[2] == t[2]);
        }
    }
    assert(!matches_at(t, 0, t.len() as int, descriptor_words(DescriptorWords::MinorWord)[2])) by {
        let w = descriptor_words(DescriptorWords::MinorWord)[2];
        assert(w == "MIN"@);
        if matches_at(t, 0, t.len() as int, w) {
            assert(t.subrange(0, w.len() as int)[0] == t[0]);
            assert(t.subrange(0, w.len() as int)[1] == t[1]);
            assert(t.subrange(0, w.len() as int)[2] == t[2]);
        }
    }
    assert(!matches_at(t, 0, t.len() as int, descriptor_words(DescriptorWords::MinorWord)[3])) by {
        let w = descriptor_words(DescriptorWords::MinorWord)[3];
        assert(w == "m"@);
        if matches_at(t, 0, t.len() as int, w) {
            assert(t.subrange(0, w.len() as int)[0] == t[0]);
        }
    }
    assert(!matches_at(t, 0, t.len() as int, descriptor_words(DescriptorWords::MinorWord)[4])) by {
        let w = descriptor_words(DescriptorWords::MinorWord)[4];
        assert(w == "-"@);
        if matches_at(t, 0, t.len() as int, w) {
            assert(t.subrange(0, w.len() as int)[0] == t[0]);
        }
    }
    lemma_first_match_none(t, 0, t.len() as int, descriptor_words(DescriptorWords::MinorWord));
    assert(!matches_at(t, 0, t.len() as int, descriptor_words(DescriptorWords::MajorLetter)[0])) by {
        let w = descriptor_words(DescriptorWords::MajorLetter)[0];
        assert(w == "M"@);
        if matches_at(t, 0, t.len() as int, w) {
            assert(t.subrange(0, w.len() as int)[0] == t[0]);
        }
    }
    lemma_first_match_none(t, 0, t.len() as int, descriptor_words(DescriptorWords::MajorLetter));
    assert(!matches_at(t, 0, t.len() as int, descriptor_words(DescriptorWords::Diminished)[0])) by {
        let w = descriptor_words(DescriptorWords::Diminished)[0];
        assert(w == "dim"@);
        if matches_at(t, 0, t.len() as int, w) {
            assert(t.subrange(0, w.len() as int)[0] == t[0]);
            assert(t.subrange(0, w.len() as int)[1] == t[1]);
            assert(t.subrange(0, w.len() as int)[2] == t[2]);
        }
    }
    assert(!matches_at(t, 0, t.len() as int, descriptor_words(DescriptorWords::Diminished)[1])) by {
        let w = descriptor_words(DescriptorWords::Diminished)[1];
        assert(w == "Dim"@);
        if matches_at(t, 0, t.len() as int, w) {
            assert(t.subrange(0, w.len() as int)[0] == t[0]);
            assert(t.subrange(0, w.len() as int)[1] == t[1]);
            assert(t.subrange(0, w.len() as int)[2] == t[2]);
        }
    }
    assert(!matches_at(t, 0, t.len() as int, descriptor_words(DescriptorWords::Diminished)[2])) by {
        let w = descriptor_words(DescriptorWords::Diminished)[2];
        assert(w == "DIM"@);
        if matches_at(t, 0, t.len() as int, w) {
            assert(t.subrange(0, w.len() as int)[0] == t[0]);
            assert(t.subrange(0, w.len() as int)[1] == t[1]);
            assert(t.subrange(0, w.len() as int)[2] == t[2]);
        }
    }
    assert(!matches_at(t, 0, t.len() as int, descriptor_words(DescriptorWords::Diminished)[3])) by {
        let w = descriptor_words(DescriptorWords::Diminished)[3];
        assert(w == "o"@);
        if matches_at(t, 0, t.len() as int, w) {
            assert(t.subrange(0, w.len() as int)[0] == t[0]);
        }
    }
    assert(!matches_at(t, 0, t.len() as int, descriptor_words(DescriptorWords::Diminished)[4])) by {
        let w = descriptor_words(DescriptorWords::Diminished)[4];
        assert(w == "\u{b0}"@);
        if matches_at(t, 0, t.len() as int, w) {
            assert(t.subrange(0, w.len() as int)[0] == t[0]);
        }
    }
    lemma_first_match_none(t, 0, t.len() as int, descriptor_words(DescriptorWords::Diminished));
    assert(matches_at(t, 0, t.len() as int, descriptor_words(DescriptorWords::Augmented)[0])) by {
        assert(descriptor_words(DescriptorWords::Augmented)[0] == "aug"@);
        assert(t.subrange(0, 3) =~= "aug"@);
    }
}

/// The sus2 mark a spec is printed with reads back as sus2.
proof fn lemma_sus2_reads_back(spec: ChordSpec)
    requires
        spec.quality == Quality::Sus2,
        !spec.alt,
        !special_half_dim(spec),
        !crate::symbol::numbered_harmony(spec) || (spec.quality != Quality::Sus2 && spec.quality != Quality::Sus4),
    ensures
        lead_quality(suffix_text(spec)) == Some((spec.quality, quality_text(spec).len() as int)),
{
    reveal_strlit("maj13");
    reveal_strlit("Maj13");
    reveal_strlit("MAJ13");
    reveal_strlit("M13");
    reveal_strlit("\u{394}13");
    reveal_strlit("\u{25b3}13");
    reveal_strlit("maj11");
    reveal_strlit("Maj11");
    reveal_strlit("MAJ11");
    reveal_strlit("M11");
    reveal_strlit("\u{394}11");
    reveal_strlit("\u{25b3}11");
    reveal_strlit("maj9");
    reveal_strlit("Maj9");
    reveal_strlit("MAJ9");
    reveal_strlit("M9");
    reveal_strlit("\u{394}9");
    reveal_strlit("\u{25b3}9");
    reveal_strlit("maj7");
    reveal_strlit("Maj7");
    reveal_strlit("MAJ7");
    reveal_strlit("M7");
    reveal_strlit("\u{394}7");
    reveal_strlit("\u{25b3}7");
    reveal_strlit("\u{394}");
    reveal_strlit("\u{25b3}");
    reveal_strlit("maj");
    reveal_strlit("Maj");
    reveal_strlit("MAJ");
    reveal_strlit("min");
    reveal_strlit("Min");
    reveal_strlit("MIN");
    reveal_strlit("m");
    reveal_strlit("-");
    reveal_strlit("M");
    reveal_strlit("dim");
    reveal_strlit("Dim");
    reveal_strlit("DIM");
    reveal_strlit("o");
    reveal_strlit("\u{b0}");
    reveal_strlit("aug");
    reveal_strlit("Aug");
    reveal_strlit("AUG");
    reveal_strlit("+");
    reveal_strlit("sus2");
    reveal_strlit("Sus2");
    reveal_strlit("SUS2");
    let t = suffix_text(spec);
    lemma_rest_start(spec);
    assert(t == quality_text(spec) + suffix_rest(spec));
    assert(!matches_at(t, 0, t.len() as int, descriptor_words(DescriptorWords::MajorExtension)[0])) by {
        let w = descriptor_words(DescriptorWords::MajorExtension)[0];
        assert(w == "maj13"@);
        if matches_at(t, 0, t.len() as int, w) {
            assert(t.subrange(0, w.len() as int)[0] == t[0]);
            assert(t.subrange(0, w.len() as int)[1] == t[1]);
            assert(t.subrange(0, w.len() as int)[2] == t[2]);
        }
    }
    assert(!matches_at(t, 0, t.len() as int, descriptor_words(DescriptorWords::MajorExtension)[1])) by {
        let w = descriptor_words(DescriptorWords::MajorExtension)[1];
        assert(w == "Maj13"@);
        if matches_at(t, 0, t.len() as int, w) {
            assert(t.subrange(0, w.len() as int)[0] == t[0]);
            assert(t.subrange(0, w.len() as int)[1] == t[1]);
            assert(t.subrange(0, w.len() as int)[2] == t[2]);
        }
    }
    assert(!matches_at(t, 0, t.len() as int, descriptor_words(DescriptorWords::MajorExtension)[2])) by {
        let w = descriptor_words(DescriptorWords::MajorExtension)[2];
        assert(w == "MAJ13"@);
        if matches_at(t, 0, t.len() as int, w) {
            assert(t.subrange(0, w.len() as int)[0] == t[0]);
            assert(t.subrange(0, w.len() as int)[1] == t[1]);
            assert(t.subrange(0, w.len() as int)[2] == t[2]);
        }
    }
    assert(!matches_at(t, 0, t.len() as int, descriptor_words(DescriptorWords::MajorExtension)[3])) by {
        let w = descriptor_words(DescriptorWords::MajorExtension)[3];
        assert(w == "M13"@);
        if matches_at(t, 0, t.len() as int, w) {
            assert(t.subrange(0, w.len() as int)[0] == t[0]);
            assert(t.subrange(0, w.len() as int)[1] == t[1]);
            assert(t.subrange(0, w.len() as int)[2] == t[2]);
        }
    }
    assert(!matches_at(t, 0, t.len() as int, descriptor_words(DescriptorWords::MajorExtension)[4])) by {
        let w = descriptor_words(DescriptorWords::MajorExtension)[4];
        assert(w == "\u{394}13"@);
        if matches_at(t, 0, t.len() as int, w) {
            assert(t.subrange(0, w.len() as int)[0] == t[0]);
            assert(t.subrange(0, w.len() as int)[1] == t[1]);
            assert(t.subrange(0, w.len() as int)[2] == t[2]);
        }
    }
    assert(!matches_at(t, 0, t.len() as int, descriptor_words(DescriptorWords::MajorExtension)[5])) by {
        let w = descriptor_words(DescriptorWords::MajorExtension)[5];
        assert(w == "\u{25b3}13"@);
        if matches_at(t, 0, t.len() as int, w) {
            assert(t.subrange(0, w.len() as int)[0] == t[0]);
            assert(t.subrange(0, w.len() as int)[1] == t[1]);
            assert(t.subrange(0, w.len() as int)[2] == t[2]);
        }
    }
    assert(!matches_at(t, 0, t.len() as int, descriptor_words(DescriptorWords::MajorExtension)[6])) by {
        let w = descriptor_words(DescriptorWords::MajorExtension)[6];
        assert(w == "maj11"@);
        if matches_at(t, 0, t.len() as int, w) {
            assert(t.subrange(0, w.len() as int)[0] == t[0]);
            assert(t.subrange(0, w.len() as int)[1] == t[1]);
            assert(t.subrange(0, w.len() as int)[2] == t[2]);
        }
    }
    assert(!matches_at(t, 0, t.len() as int, descriptor_words(DescriptorWords::MajorExtension)[7])) by {
        let w = descriptor_words(DescriptorWords::MajorExtension)[7];
        assert(w == "Maj11"@);
        if matches_at(t, 0, t.len() as int, w) {
            assert(t.subrange(0, w.len() as int)[0] == t[0]);
            assert(t.subrange(0, w.len() as int)[1] == t[1]);
            assert(t.subrange(0, w.len() as int)[2] == t[2]);
        }
    }
    assert(!matches_at(t, 0, t.len() as int, descriptor_words(DescriptorWords::MajorExtension)[8])) by {
        let w = descriptor_words(DescriptorWords::MajorExtension)[8];
        assert(w == "MAJ11"@);
        if matches_at(t, 0, t.len() as int, w) {
            assert(t.subrange(0, w.len() as int)[0] == t[0]);
            assert(t.subrange(0, w.len() as int)[1] == t[1]);
            assert(t.subrange(0, w.len() as int)[2] == t[2]);
        }
    }
    assert(!matches_at(t, 0, t.len() as int, descriptor_words(DescriptorWords::MajorExtension)[9])) by {
        let w = descriptor_words(DescriptorWords::MajorExtension)[9];
        assert(w == "M11"@);
        if matches_at(t, 0, t.len() as int, w) {
            assert(t.subrange(0, w.len() as int)[0] == t[0]);
            assert(t.subrange(0, w.len() as int)[1] == t[1]);
            assert(t.subrange(0, w.len() as int)[2] == t[2]);
        }
    }
    assert(!matches_at(t, 0, t.len() as int, descriptor_words(DescriptorWords::MajorExtension)[10])) by {
        let w = descriptor_words(DescriptorWords::MajorExtension)[10];
        assert(w == "\u{394}11"@);
        if matches_at(t, 0, t.len() as int, w) {
            assert(t.subrange(0, w.len() as int)[0] == t[0]);
            assert(t.subrange(0, w.len() as int)[1] == t[1]);
            assert(t.subrange(0, w.len() as int)[2] == t[2]);
        }
    }
    assert(!matches_at(t, 0, t.len() as int, descriptor_words(DescriptorWords::MajorExtension)[11])) by {
        let w = descriptor_words(DescriptorWords::MajorExtension)[11];
        assert(w == "\u{25b3}11"@);
        if matches_at(t, 0, t.len() as int, w) {
            assert(t.subrange(0, w.len() as int)[0] == t[0]);
            assert(t.subrange(0, w.len() as int)[1] == t[1]);
            assert(t.subrange(0, w.len() as int)[2] == t[2]);
        }
    }
    assert(!matches_at(t, 0, t.len() as int, descriptor_words(DescriptorWords::MajorExtension)[12])) by {
        let w = descriptor_words(DescriptorWords::MajorExtension)[12];
        assert(w == "maj9"@);
        if matches_at(t, 0, t.len() as int, w) {
            assert(t.subrange(0, w.len() as int)[0] == t[0]);
            assert(t.subrange(0, w.len() as int)[1] == t[1]);
            assert(t.subrange(0, w.len() as int)[2] == t[2]);
        }
    }
    assert(!matches_at(t, 0, t.len() as int, descriptor_words(DescriptorWords::MajorExtension)[13])) by {
        let w = descriptor_words(DescriptorWords::MajorExtension)[13];
        assert(w == "Maj9"@);
        if matches_at(t, 0, t.len() as int, w) {
            assert(t.subrange(0, w.len() as int)[0] == t[0]);
            assert(t.subrange(0, w.len() as int)[1] == t[1]);
            assert(t.subrange(0, w.len() as int)[2] == t[2]);
        }
    }
    assert(!matches_at(t, 0, t.len() as int, descriptor_words(DescriptorWords::MajorExtension)[14])) by {
        let w = descriptor_words(DescriptorWords::MajorExtension)[14];
        assert(w == "MAJ9"@);
        if matches_at(t, 0, t.len() as int, w) {
            assert(t.subrange(0, w.len() as int)[0] == t[0]);
            assert(t.subrange(0, w.len() as int)[1] == t[1]);
            assert(t.subrange(0, w.len() as int)[2] == t[2]);
        }
    }
    assert(!matches_at(t, 0, t.len() as int, descriptor_words(DescriptorWords::MajorExtension)[15])) by {
        let w = descriptor_words(DescriptorWords::MajorExtension)[15];
        assert(w == "M9"@);
        if matches_at(t, 0, t.len() as int, w) {
            assert(t.subrange(0, w.len() as int)[0] == t[0]);
            assert(t.subrange(0, w.len() as int)[1] == t[1]);
        }
    }
    assert(!matches_at(t, 0, t.len() as int, descriptor_words(DescriptorWords::MajorExtension)[16])) by {
        let w = descriptor_words(DescriptorWords::MajorExtension)[16];
        assert(w == "\u{394}9"@);
        if matches_at(t, 0, t.len() as int, w) {
            assert(t.subrange(0, w.len() as int)[0] == t[0]);
            assert(t.subrange(0, w.len() as int)[1] == t[1]);
        }
    }
    assert(!matches_at(t, 0, t.len() as int, descriptor_words(DescriptorWords::MajorExtension)[17])) by {
        let w = descriptor_words(DescriptorWords::MajorExtension)[17];
        assert(w == "\u{25b3}9"@);
        if matches_at(t, 0, t.len() as int, w) {
            assert(t.subrange(0, w.len() as int)[0] == t[0]);
            assert(t.subrange(0, w.len() as int)[1] == t[1]);
        }
    }
    assert(!matches_at(t, 0, t.len() as int, descriptor_words(DescriptorWords::MajorExtension)[18])) by {
        let w = descriptor_words(DescriptorWords::MajorExtension)[18];
        assert(w == "maj7"@);
        if matches_at(t, 0, t.len() as int, w) {
            assert(t.subrange(0, w.len() as int)[0] == t[0]);
            assert(t.subrange(0, w.len() as int)[1] == t[1]);
            assert(t.subrange(0, w.len() as int)[2] == t[2]);
        }
    }
    assert(!matches_at(t, 0, t.len() as int, descriptor_words(DescriptorWords::MajorExtension)[19])) by {
        let w = descriptor_words(DescriptorWords::MajorExtension)[19];
        assert(w == "Maj7"@);
        if matches_at(t, 0, t.len() as int, w) {
            assert(t.subrange(0, w.len() as int)[0] == t[0]);
            assert(t.subrange(0, w.len() as int)[1] == t[1]);
            assert(t.subrange(0, w.len() as int)[2] == t[2]);
        }
    }
    assert(!matches_at(t, 0, t.len() as int, descriptor_words(DescriptorWords::MajorExtension)[20])) by {
        let w = descriptor_words(DescriptorWords::MajorExtension)[20];
        assert(w == "MAJ7"@);
        if matches_at(t, 0, t.len() as int, w) {
            assert(t.subrange(0, w.len() as int)[0] == t[0]);
            assert(t.subrange(0, w.len() as int)[1] == t[1]);
            assert(t.subrange(0, w.len() as int)[2] == t[2]);
        }
    }
    assert(!matches_at(t, 0, t.len() as int, descriptor_words(DescriptorWords::MajorExtension)[21])) by {
        let w = descriptor_words(DescriptorWords::MajorExtension)[21];
        assert(w == "M7"@);
        if matches_at(t, 0, t.len() as int, w) {
            assert(t.subrange(0, w.len() as int)[0] == t[0]);
            assert(t.subrange(0, w.len() as int)[1] == t[1]);
        }
    }
    assert(!matches_at(t, 0, t.len() as int, descriptor_words(DescriptorWords::MajorExtension)[22])) by {
        let w = descriptor_words(DescriptorWords::MajorExtension)[22];
        assert(w == "\u{394}7"@);
        if matches_at(t, 0, t.len() as int, w) {
            assert(t.subrange(0, w.len() as int)[0] == t[0]);
            assert(t.subrange(0, w.len() as int)[1] == t[1]);
        }
    }
    assert(!matches_at(t, 0, t.len() as int, descriptor_words(DescriptorWords::MajorExtension)[23])) by {
        let w = descriptor_words(DescriptorWords::MajorExtension)[23];
        assert(w == "\u{25b3}7"@);
        if matches_at(t, 0, t.len() as int, w) {
            assert(t.subrange(0, w.len() as int)[0] == t[0]);
            assert(t.subrange(0, w.len() as int)[1] == t[1]);
        }
    }
    assert(!matches_at(t, 0, t.len() as int, descriptor_words(DescriptorWords::MajorExtension)[24])) by {
        let w = descriptor_words(DescriptorWords::MajorExtension)[24];
        assert(w == "\u{394}"@);
        if matches_at(t, 0, t.len() as int, w) {
            assert(t.subrange(0, w.len() as int)[0] == t[0]);
        }
    }
    assert(!matches_at(t, 0, t.len() as int, descriptor_words(DescriptorWords::MajorExtension)[25])) by {
        let w = descriptor_words(DescriptorWords::MajorExtension)[25];
        assert(w == "\u{25b3}"@);
        if matches_at(t, 0, t.len() as int, w) {
            assert(t.subrange(0, w.len() as int)[0] == t[0]);
        }
    }
    lemma_first_match_none(t, 0, t.len() as int, descriptor_words(DescriptorWords::MajorExtension));
    assert(!matches_at(t, 0, t.len() as int, descriptor_words(DescriptorWords::MajorWord)[0])) by {
        let w = descriptor_words(DescriptorWords::MajorWord)[0];
        assert(w == "maj"@);
        if matches_at(t, 0, t.len() as int, w) {
            assert(t.subrange(0, w.len() as int)[0] == t[0]);
            assert(t.subrange(0, w.len() as int)[1] == t[1]);
            assert(t.subrange(0, w.len() as int)[2] == t[2]);
        }
    }
    assert(!matches_at(t, 0, t.len() as int, descriptor_words(DescriptorWords::MajorWord)[1])) by {
        let w = descriptor_words(DescriptorWords::MajorWord)[1];
        assert(w == "Maj"@);
        if matches_at(t, 0, t.len() as int, w) {
            assert(t.subrange(0, w.len() as int)[0] == t[0]);
            assert(t.subrange(0, w.len() as int)[1] == t[1]);
            assert(t.subrange(0, w.len() as int)[2] == t[2]);
        }
    }
    assert(!matches_at(t, 0, t.len() as int, descriptor_words(DescriptorWords::MajorWord)[2])) by {
        let w = descriptor_words(DescriptorWords::MajorWord)[2];
        assert(w == "MAJ"@);
        if matches_at(t, 0, t.len() as int, w) {
            assert(t.subrange(0, w.len() as int)[0] == t[0]);
            assert(t.subrange(0, w.len() as int)[1] == t[1]);
            assert(t.subrange(0, w.len() as int)[2] == t[2]);
        }
    }
    lemma_first_match_none(t, 0, t.len() as int, descriptor_words(DescriptorWords::MajorWord));
    assert(!matches_at(t, 0, t.len() as int, descriptor_words(DescriptorWords::MinorWord)[0])) by {
        let w = descriptor_words(DescriptorWords::MinorWord)[0];
        assert(w == "min"@);
        if matches_at(t, 0, t.len() as int, w) {
            assert(t.subrange(0, w.len() as int)[0] == t[0]);
            assert(t.subrange(0, w.len() as int)[1] == t[1]);
            assert(t.subrange(0, w.len() as int)[2] == t[2]);
        }
    }
    assert(!matches_at(t, 0, t.len() as int, descriptor_words(DescriptorWords::MinorWord)[1])) by {
        let w = descriptor_words(DescriptorWords::MinorWord)[1];
        assert(w == "Min"@);
        if matches_at(t, 0, t.len() as int, w) {
            assert(t.subrange(0, w.len() as int)[0] == t[0]);
            assert(t.subrange(0, w.len() as int)[1] == t[1]);
            assert(t.subrange(0, w.len() as int)[2] == t[2]);
        }
    }
    assert(!matches_at(t, 0, t.len() as int, descriptor_words(DescriptorWords::MinorWord)[2])) by {
        let w = descriptor_words(DescriptorWords::MinorWord)[2];
        assert(w == "MIN"@);
        if matches_at(t, 0, t.len() as int, w) {
            assert(t.subrange(0, w.len() as int)[0] == t[0]);
            assert(t.subrange(0, w.len() as int)[1] == t[1]);
            assert(t.subrange(0, w.len() as int)[2] == t[2]);
        }
    }
    assert(!matches_at(t, 0, t.len() as int, descriptor_words(DescriptorWords::MinorWord)[3])) by {
        let w = descriptor_words(DescriptorWords::MinorWord)[3];
        assert(w == "m"@);
        if matches_at(t, 0, t.len() as int, w) {
            assert(t.subrange(0, w.len() as int)[0] == t[0]);
        }
    }
    assert(!matches_at(t, 0, t.len() as int, descriptor_words(DescriptorWords::MinorWord)[4])) by {
        let w = descriptor_words(DescriptorWords::MinorWord)[4];
        assert(w == "-"@);
        if matches_at(t, 0, t.len() as int, w) {
            assert(t.subrange(0, w.len() as int)[0] == t[0]);
        }
    }
    lemma_first_match_none(t, 0, t.len() as int, descriptor_words(DescriptorWords::MinorWord));
    assert(!matches_at(t, 0, t.len() as int, descriptor_words(DescriptorWords::MajorLetter)[0])) by {
        let w = descriptor_words(DescriptorWords::MajorLetter)[0];
        assert(w == "M"@);
        if matches_at(t, 0, t.len() as int, w) {
            assert(t.subrange(0, w.len() as int)[0] == t[0]);
        }
    }
    lemma_first_match_none(t, 0, t.len() as int, descriptor_words(DescriptorWords::MajorLetter));
    assert(!matches_at(t, 0, t.len() as int, descriptor_words(DescriptorWords::Diminished)[0])) by {
        let w = descriptor_words(DescriptorWords::Diminished)[0];
        assert(w == "dim"@);
        if matches_at(t, 0, t.len() as int, w) {
            assert(t.subrange(0, w.len() as int)[0] == t[0]);
            assert(t.subrange(0, w.len() as int)[1] == t[1]);
            assert(t.subrange(0, w.len() as int)[2] == t[2]);
        }
    }
    assert(!matches_at(t, 0, t.len() as int, descriptor_words(DescriptorWords::Diminished)[1])) by {
        let w = descriptor_words(DescriptorWords::Diminished)[1];
        assert(w == "Dim"@);
        if matches_at(t, 0, t.len() as int, w) {
            assert(t.subrange(0, w.len() as int)[0] == t[0]);
            assert(t.subrange(0, w.len() as int)[1] == t[1]);
            assert(t.subrange(0, w.len() as int)[2] == t[2]);
        }
    }
    assert(!matches_at(t, 0, t.len() as int, descriptor_words(DescriptorWords::Diminished)[2])) by {
        let w = descriptor_words(DescriptorWords::Diminished)[2];
        assert(w == "DIM"@);
        if matches_at(t, 0, t.len() as int, w) {
            assert(t.subrange(0, w.len() as int)[0] == t[0]);
            assert(t.subrange(0, w.len() as int)[1] == t[1]);
            assert(t.subrange(0, w.len() as int)[2] == t[2]);
        }
    }
    assert(!matches_at(t, 0, t.len() as int, descriptor_words(DescriptorWords::Diminished)[3])) by {
        let w = descriptor_words(DescriptorWords::Diminished)[3];
        assert(w == "o"@);
        if matches_at(t, 0, t.len() as int, w) {
            assert(t.subrange(0, w.len() as int)[0] == t[0]);
        }
    }
    assert(!matches_at(t, 0, t.len() as int, descriptor_words(DescriptorWords::Diminished)[4])) by {
        let w = descriptor_words(DescriptorWords::Diminished)[4];
        assert(w == "\u{b0}"@);
        if matches_at(t, 0, t.len() as int, w) {
            assert(t.subrange(0, w.len() as int)[0] == t[0]);
        }
    }
    lemma_first_match_none(t, 0, t.len() as int, descriptor_words(DescriptorWords::Diminished));
    assert(!matches_at(t, 0, t.len() as int, descriptor_words(DescriptorWords::Augmented)[0])) by {
        let w = descriptor_words(DescriptorWords::Augmented)[0];
        assert(w == "aug"@);
        if matches_at(t, 0, t.len() as int, w) {
            assert(t.subrange(0, w.len() as int)[0] == t[0]);
            assert(t.subrange(0, w.len() as int)[1] == t[1]);
            assert(t.subrange(0, w.len() as int)[2] == t[2]);
        }
    }
    assert(!matches_at(t, 0, t.len() as int, descriptor_words(DescriptorWords::Augmented)[1])) by {
        let w = descriptor_words(DescriptorWords::Augmented)[1];
        assert(w == "Aug"@);
        if matches_at(t, 0, t.len() as int, w) {
            assert(t.subrange(0, w.len() as int)[0] == t[0]);
            assert(t.subrange(0, w.len() as int)[1] == t[1]);
            assert(t.subrange(0, w.len() as int)[2] == t[2]);
        }
    }
    assert(!matches_at(t, 0, t.len() as int, descriptor_words(DescriptorWords::Augmented)[2])) by {
        let w = descriptor_words(DescriptorWords::Augmented)[2];
        assert(w == "AUG"@);
        if matches_at(t, 0, t.len() as int, w) {
            assert(t.subrange(0, w.len() as int)[0] == t[0]);
            assert(t.subrange(0, w.len() as int)[1] == t[1]);
            assert(t.subrange(0, w.len() as int)[2] == t[2]);
        }
    }
    assert(!matches_at(t, 0, t.len() as int, descriptor_words(DescriptorWords::Augmented)[3])) by {
        let w = descriptor_words(DescriptorWords::Augmented)[3];
        assert(w == "+"@);
        if matches_at(t, 0, t.len() as int, w) {
            assert(t.subrange(0, w.len() as int)[0] == t[0]);
        }
    }
    lemma_first_match_none(t, 0, t.len() as int, descriptor_words(DescriptorWords::Augmented));
    assert(matches_at(t, 0, t.len() as int, descriptor_words(DescriptorWords::Sus2)[0])) by {
        assert(descriptor_words(DescriptorWords::Sus2)[0] == "sus2"@);
        assert(t.subrange(0, 4) =~= "sus2"@);
    }
}

/// The sus4 mark a spec is printed with reads back as sus4.
proof fn lemma_sus4_reads_back(spec: ChordSpec)
    requires
        spec.quality == Quality::Sus4,
        !spec.alt,
        !special_half_dim(spec),
        !crate::symbol::numbered_harmony(spec) || (spec.quality != Quality::Sus2 && spec.quality != Quality::Sus4),
    ensures
        lead_quality(suffix_text(spec)) == Some((spec.quality, quality_text(spec).len() as int)),
{
    reveal_strlit("maj13");
    reveal_strlit("Maj13");
    reveal_strlit("MAJ13");
    reveal_strlit("M13");
    reveal_strlit("\u{394}13");
    reveal_strlit("\u{25b3}13");
    reveal_strlit("maj11");
    reveal_strlit("Maj11");
    reveal_strlit("MAJ11");
    reveal_strlit("M11");
    reveal_strlit("\u{394}11");
    reveal_strlit("\u{25b3}11");
    reveal_strlit("maj9");
    reveal_strlit("Maj9");
    reveal_strlit("MAJ9");
    reveal_strlit("M9");
    reveal_strlit("\u{394}9");
    reveal_strlit("\u{25b3}9");
    reveal_strlit("maj7");
    reveal_strlit("Maj7");
    reveal_strlit("MAJ7");
    reveal_strlit("M7");
    reveal_strlit("\u{394}7");
    reveal_strlit("\u{25b3}7");
    reveal_strlit("\u{394}");
    reveal_strlit("\u{25b3}");
    reveal_strlit("maj");
    reveal_strlit("Maj");
    reveal_strlit("MAJ");
    reveal_strlit("min");
    reveal_strlit("Min");
    reveal_strlit("MIN");
    reveal_strlit("m");
    reveal_strlit("-");
    reveal_strlit("M");
    reveal_strlit("dim");
    reveal_strlit("Dim");
    reveal_strlit("DIM");
    reveal_strlit("o");
    reveal_strlit("\u{b0}");
    reveal_strlit("aug");
    reveal_strlit("Aug");
    reveal_strlit("AUG");
    reveal_strlit("+");
    reveal_strlit("sus2");
    reveal_strlit("Sus2");
    reveal_strlit("SUS2");
    reveal_strlit("sus4");
    reveal_strlit("Sus4");
    reveal_strlit("SUS4");
    reveal_strlit("sus");
    reveal_strlit("Sus");
    reveal_strlit("SUS");
    let t = suffix_text(spec);
    lemma_rest_start(spec);
    assert(t == quality_text(spec) + suffix_rest(spec));
    assert(!matches_at(t, 0, t.len() as int, descriptor_words(DescriptorWords::MajorExtension)[0])) by {
        let w = descriptor_words(DescriptorWords::MajorExtension)[0];
        assert(w == "maj13"@);
        if matches_at(t, 0, t.len() as int, w) {
            assert(t.subrange(0, w.len() as int)[0] == t[0]);
            assert(t.subrange(0, w.len() as int)[1] == t[1]);
            assert(t.subrange(0, w.len() as int)[2] == t[2]);
        }
    }
    assert(!matches_at(t, 0, t.len() as int, descriptor_words(DescriptorWords::MajorExtension)[1])) by {
        let w = descriptor_words(DescriptorWords::MajorExtension)[1];
        assert(w == "Maj13"@);
        if matches_at(t, 0, t.len() as int, w) {
            assert(t.subrange(0, w.len() as int)[0] == t[0]);
            assert(t.subrange(0, w.len() as int)[1] == t[1]);
            assert(t.subrange(0, w.len() as int)[2] == t[2]);
        }
    }
    assert(!matches_at(t, 0, t.len() as int, descriptor_words(DescriptorWords::MajorExtension)[2])) by {
        let w = descriptor_words(DescriptorWords::MajorExtension)[2];
        assert(w == "MAJ13"@);
        if matches_at(t, 0, t.len() as int, w) {
            assert(t.subrange(0, w.len() as int)[0] == t[0]);
            assert(t.subrange(0, w.len() as int)[1] == t[1]);
            assert(t.subrange(0, w.len() as int)[2] == t[2]);
        }
    }
    assert(!matches_at(t, 0, t.len() as int, descriptor_words(DescriptorWords::MajorExtension)[3])) by {
        let w = descriptor_words(DescriptorWords::MajorExtension)[3];
        assert(w == "M13"@);
        if matches_at(t, 0, t.len() as int, w) {
            assert(t.subrange(0, w.len() as int)[0] == t[0]);
            assert(t.subrange(0, w.len() as int)[1] == t[1]);
            assert(t.subrange(0, w.len() as int)[2] == t[2]);
        }
    }
    assert(!matches_at(t, 0, t.len() as int, descriptor_words(DescriptorWords::MajorExtension)[4])) by {
        let w = descriptor_words(DescriptorWords::MajorExtension)[4];
        assert(w == "\u{394}13"@);
        if matches_at(t, 0, t.len() as int, w) {
            assert(t.subrange(0, w.len() as int)[0] == t[0]);
            assert(t.subrange(0, w.len() as int)[1] == t[1]);
            assert(t.subrange(0, w.len() as int)[2] == t[2]);
        }
    }
    assert(!matches_at(t, 0, t.len() as int, descriptor_words(DescriptorWords::MajorExtension)[5])) by {
        let w = descriptor_words(DescriptorWords::MajorExtension)[5];
        assert(w == "\u{25b3}13"@);
        if matches_at(t, 0, t.len() as int, w) {
            assert(t.subrange(0, w.len() as int)[0] == t[0]);
            assert(t.subrange(0, w.len() as int)[1] == t[1]);
            assert(t.subrange(0, w.len() as int)[2] == t[2]);
        }
    }
    assert(!matches_at(t, 0, t.len() as int, descriptor_words(DescriptorWords::MajorExtension)[6])) by {
        let w = descriptor_words(DescriptorWords::MajorExtension)[6];
        assert(w == "maj11"@);
        if matches_at(t, 0, t.len() as int, w) {
            assert(t.subrange(0, w.len() as int)[0] == t[0]);
            assert(t.subrange(0, w.len() as int)[1] == t[1]);
            assert(t.subrange(0, w.len() as int)[2] == t[2]);
        }
    }
    assert(!matches_at(t, 0, t.len() as int, descriptor_words(DescriptorWords::MajorExtension)[7])) by {
        let w = descriptor_words(DescriptorWords::MajorExtension)[7];
        assert(w == "Maj11"@);
        if matches_at(t, 0, t.len() as int, w) {
            assert(t.subrange(0, w.len() as int)[0] == t[0]);
            assert(t.subrange(0, w.len() as int)[1] == t[1]);
            assert(t.subrange(0, w.len() as int)[2] == t[2]);
        }
    }
    assert(!matches_at(t, 0, t.len() as int, descriptor_words(DescriptorWords::MajorExtension)[8])) by {
        let w = descriptor_words(DescriptorWords::MajorExtension)[8];
        assert(w == "MAJ11"@);
        if matches_at(t, 0, t.len() as int, w) {
            assert(t.subrange(0, w.len() as int)[0] == t[0]);
            assert(t.subrange(0, w.len() as int)[1] == t[1]);
            assert(t.subrange(0, w.len() as int)[2] == t[2]);
        }
    }
    assert(!matches_at(t, 0, t.len() as int, descriptor_words(DescriptorWords::MajorExtension)[9])) by {
        let w = descriptor_words(DescriptorWords::MajorExtension)[9];
        assert(w == "M11"@);
        if matches_at(t, 0, t.len() as int, w) {
            assert(t.subrange(0, w.len() as int)[0] == t[0]);
            assert(t.subrange(0, w.len() as int)[1] == t[1]);
            assert(t.subrange(0, w.len() as int)[2] == t[2]);
        }
    }
    assert(!matches_at(t, 0, t.len() as int, descriptor_words(DescriptorWords::MajorExtension)[10])) by {
        let w = descriptor_words(DescriptorWords::MajorExtension)[10];
        assert(w == "\u{394}11"@);
        if matches_at(t, 0, t.len() as int, w) {
            assert(t.subrange(0, w.len() as int)[0] == t[0]);
            assert(t.subrange(0, w.len() as int)[1] == t[1]);
            assert(t.subrange(0, w.len() as int)[2] == t[2]);
        }
    }
    assert(!matches_at(t, 0, t.len() as int, descriptor_words(DescriptorWords::MajorExtension)[11])) by {
        let w = descriptor_words(DescriptorWords::MajorExtension)[11];
        assert(w == "\u{25b3}11"@);
        if matches_at(t, 0, t.len() as int, w) {
            assert(t.subrange(0, w.len() as int)[0] == t[0]);
            assert(t.subrange(0, w.len() as int)[1] == t[1]);
            assert(t.subrange(0, w.len() as int)[2] == t[2]);
        }
    }
    assert(!matches_at(t, 0, t.len() as int, descriptor_words(DescriptorWords::MajorExtension)[12])) by {
        let w = descriptor_words(DescriptorWords::MajorExtension)[12];
        assert(w == "maj9"@);
        if matches_at(t, 0, t.len() as int, w) {
            assert(t.subrange(0, w.len() as int)[0] == t[0]);
            assert(t.subrange(0, w.len() as int)[1] == t[1]);
            assert(t.subrange(0, w.len() as int)[2] == t[2]);
        }
    }
    assert(!matches_at(t, 0, t.len() as int, descriptor_words(DescriptorWords::MajorExtension)[13])) by {
        let w = descriptor_words(DescriptorWords::MajorExtension)[13];
        assert(w == "Maj9"@);
        if matches_at(t, 0, t.len() as int, w) {
            assert(t.subrange(0, w.len() as int)[0] == t[0]);
            assert(t.subrange(0, w.len() as int)[1] == t[1]);
            assert(t.subrange(0, w.len() as int)[2] == t[2]);
        }
    }
    assert(!matches_at(t, 0, t.len() as int, descriptor_words(DescriptorWords::MajorExtension)[14])) by {
        let w = descriptor_words(DescriptorWords::MajorExtension)[14];
        assert(w == "MAJ9"@);
        if matches_at(t, 0, t.len() as int, w) {
            assert(t.subrange(0, w.len() as int)[0] == t[0]);
            assert(t.subrange(0, w.len() as int)[1] == t[1]);
            assert(t.subrange(0, w.len() as int)[2] == t[2]);
        }
    }
    assert(!matches_at(t, 0, t.len() as int, descriptor_words(DescriptorWords::MajorExtension)[15])) by {
        let w = descriptor_words(DescriptorWords::MajorExtension)[15];
        assert(w == "M9"@);
        if matches_at(t, 0, t.len() as int, w) {
            assert(t.subrange(0, w.len() as int)[0] == t[0]);
            assert(t.subrange(0, w.len() as int)[1] == t[1]);
        }
    }
    assert(!matches_at(t, 0, t.len() as int, descriptor_words(DescriptorWords::MajorExtension)[16])) by {
        let w = descriptor_words(DescriptorWords::MajorExtension)[16];
        assert(w == "\u{394}9"@);
        if matches_at(t, 0, t.len() as int, w) {
            assert(t.subrange(0, w.len() as int)[0] == t[0]);
            assert(t.subrange(0, w.len() as int)[1] == t[1]);
        }
    }
    assert(!matches_at(t, 0, t.len() as int, descriptor_words(DescriptorWords::MajorExtension)[17])) by {
        let w = descriptor_words(DescriptorWords::MajorExtension)[17];
        assert(w == "\u{25b3}9"@);
        if matches_at(t, 0, t.len() as int, w) {
            assert(t.subrange(0, w.len() as int)[0] == t[0]);
            assert(t.subrange(0, w.len() as int)[1] == t[1]);
        }
    }
    assert(!matches_at(t, 0, t.len() as int, descriptor_words(DescriptorWords::MajorExtension)[18])) by {
        let w = descriptor_words(DescriptorWords::MajorExtension)[18];
        assert(w == "maj7"@);
        if matches_at(t, 0, t.len() as int, w) {
            assert(t.subrange(0, w.len() as int)[0] == t[0]);
            assert(t.subrange(0, w.len() as int)[1] == t[1]);
            assert(t.subrange(0, w.len() as int)[2] == t[2]);
        }
    }
    assert(!matches_at(t, 0, t.len() as int, descriptor_words(DescriptorWords::MajorExtension)[19])) by {
        let w = descriptor_words(DescriptorWords::MajorExtension)[19];
        assert(w == "Maj7"@);
        if matches_at(t, 0, t.len() as int, w) {
            assert(t.subrange(0, w.len() as int)[0] == t[0]);
            assert(t.subrange(0, w.len() as int)[1] == t[1]);
            assert(t.subrange(0, w.len() as int)[2] == t[2]);
        }
    }
    assert(!matches_at(t, 0, t.len() as int, descriptor_words(DescriptorWords::MajorExtension)[20])) by {
        let w = descriptor_words(DescriptorWords::MajorExtension)[20];
        assert(w == "MAJ7"@);
        if matches_at(t, 0, t.len() as int, w) {
            assert(t.subrange(0, w.len() as int)[0] == t[0]);
            assert(t.subrange(0, w.len() as int)[1] == t[1]);
            assert(t.subrange(0, w.len() as int)[2] == t[2]);
        }
    }
    assert(!matches_at(t, 0, t.len() as int, descriptor_words(DescriptorWords::MajorExtension)[21])) by {
        let w = descriptor_words(DescriptorWords::MajorExtension)[21];
        assert(w == "M7"@);
        if matches_at(t, 0, t.len() as int, w) {
            assert(t.subrange(0, w.len() as int)[0] == t[0]);
            assert(t.subrange(0, w.len() as int)[1] == t[1]);
        }
    }
    assert(!matches_at(t, 0, t.len() as int, descriptor_words(DescriptorWords::MajorExtension)[22])) by {
        let w = descriptor_words(DescriptorWords::MajorExtension)[22];
        assert(w == "\u{394}7"@);
        if matches_at(t, 0, t.len() as int, w) {
            assert(t.subrange(0, w.len() as int)[0] == t[0]);
            assert(t.subrange(0, w.len() as int)[1] == t[1]);
        }
    }
    assert(!matches_at(t, 0, t.len() as int, descriptor_words(DescriptorWords::MajorExtension)[23])) by {
        let w = descriptor_words(DescriptorWords::MajorExtension)[23];
        assert(w == "\u{25b3}7"@);
        if matches_at(t, 0, t.len() as int, w) {
            assert(t.subrange(0, w.len() as int)[0] == t[0]);
            assert(t.subrange(0, w.len() as int)[1] == t[1]);
        }
    }
    assert(!matches_at(t, 0, t.len() as int, descriptor_words(DescriptorWords::MajorExtension)[24])) by {
        let w = descriptor_words(DescriptorWords::MajorExtension)[24];
        assert(w == "\u{394}"@);
        if matches_at(t, 0, t.len() as int, w) {
            assert(t.subrange(0, w.len() as int)[0] == t[0]);
        }
    }
    assert(!matches_at(t, 0, t.len() as int, descriptor_words(DescriptorWords::MajorExtension)[25])) by {
        let w = descriptor_words(DescriptorWords::MajorExtension)[25];
        assert(w == "\u{25b3}"@);
        if matches_at(t, 0, t.len() as int, w) {
            assert(t.subrange(0, w.len() as int)[0] == t[0]);
        }
    }
    lemma_first_match_none(t, 0, t.len() as int, descriptor_words(DescriptorWords::MajorExtension));
    assert(!matches_at(t, 0, t.len() as int, descriptor_words(DescriptorWords::MajorWord)[0])) by {
        let w = descriptor_words(DescriptorWords::MajorWord)[0];
        assert(w == "maj"@);
        if matches_at(t, 0, t.len() as int, w) {
            assert(t.subrange(0, w.len() as int)[0] == t[0]);
            assert(t.subrange(0, w.len() as int)[1] == t[1]);
            assert(t.subrange(0, w.len() as int)[2] == t[2]);
        }
    }
    assert(!matches_at(t, 0, t.len() as int, descriptor_words(DescriptorWords::MajorWord)[1])) by {
        let w = descriptor_words(DescriptorWords::MajorWord)[1];
        assert(w == "Maj"@);
        if matches_at(t, 0, t.len() as int, w) {
            assert(t.subrange(0, w.len() as int)[0] == t[0]);
            assert(t.subrange(0, w.len() as int)[1] == t[1]);
            assert(t.subrange(0, w.len() as int)[2] == t[2]);
        }
    }
    assert(!matches_at(t, 0, t.len() as int, descriptor_words(DescriptorWords::MajorWord)[2])) by {
        let w = descriptor_words(DescriptorWords::MajorWord)[2];
        assert(w == "MAJ"@);
        if matches_at(t, 0, t.len() as int, w) {
            assert(t.subrange(0, w.len() as int)[0] == t[0]);
            assert(t.subrange(0, w.len() as int)[1] == t[1]);
            assert(t.subrange(0, w.len() as int)[2] == t[2]);
        }
    }
    lemma_first_match_none(t, 0, t.len() as int, descriptor_words(DescriptorWords::MajorWord));
    assert(!matches_at(t, 0, t.len() as int, descriptor_words(DescriptorWords::MinorWord)[0])) by {
        let w = descriptor_words(DescriptorWords::MinorWord)[0];
        assert(w == "min"@);
        if matches_at(t, 0, t.len() as int, w) {
            assert(t.subrange(0, w.len() as int)[0] == t[0]);
            assert(t.subrange(0, w.len() as int)[1] == t[1]);
            assert(t.subrange(0, w.len() as int)[2] == t[2]);
        }
    }
    assert(!matches_at(t, 0, t.len() as int, descriptor_words(DescriptorWords::MinorWord)[1])) by {
        let w = descriptor_words(DescriptorWords::MinorWord)[1];
        assert(w == "Min"@);
        if matches_at(t, 0, t.len() as int, w) {
            assert(t.subrange(0, w.len() as int)[0] == t[0]);
            assert(t.subrange(0, w.len() as int)[1] == t[1]);
            assert(t.subrange(0, w.len() as int)[2] == t[2]);
        }
    }
    assert(!matches_at(t, 0, t.len() as int, descriptor_words(DescriptorWords::MinorWord)[2])) by {
        let w = descriptor_words(DescriptorWords::MinorWord)[2];
        assert(w == "MIN"@);
        if matches_at(t, 0, t.len() as int, w) {
            assert(t.subrange(0, w.len() as int)[0] == t[0]);
            assert(t.subrange(0, w.len() as int)[1] == t[1]);
            assert(t.subrange(0, w.len() as int)[2] == t[2]);
        }
    }
    assert(!matches_at(t, 0, t.len() as int, descriptor_words(DescriptorWords::MinorWord)[3])) by {
        let w = descriptor_words(DescriptorWords::MinorWord)[3];
        assert(w == "m"@);
        if matches_at(t, 0, t.len() as int, w) {
            assert(t.subrange(0, w.len() as int)[0] == t[0]);
        }
    }
    assert(!matches_at(t, 0, t.len() as int, descriptor_words(DescriptorWords::MinorWord)[4])) by {
        let w = descriptor_words(DescriptorWords::MinorWord)[4];
        assert(w == "-"@);
        if matches_at(t, 0, t.len() as int, w) {
            assert(t.subrange(0, w.len() as int)[0] == t[0]);
        }
    }
    lemma_first_match_none(t, 0, t.len() as int, descriptor_words(DescriptorWords::MinorWord));
    assert(!matches_at(t, 0, t.len() as int, descriptor_words(DescriptorWords::MajorLetter)[0])) by {
        let w = descriptor_words(DescriptorWords::MajorLetter)[0];
        assert(w == "M"@);
        if matches_at(t, 0, t.len() as int, w) {
            assert(t.subrange(0, w.len() as int)[0] == t[0]);
        }
    }
    lemma_first_match_none(t, 0, t.len() as int, descriptor_words(DescriptorWords::MajorLetter));
    assert(!matches_at(t, 0, t.len() as int, descriptor_words(DescriptorWords::Diminished)[0])) by {
        let w = descriptor_words(DescriptorWords::Diminished)[0];
        assert(w == "dim"@);
        if matches_at(t, 0, t.len() as int, w) {
            assert(t.subrange(0, w.len() as int)[0] == t[0]);
            assert(t.subrange(0, w.len() as int)[1] == t[1]);
            assert(t.subrange(0, w.len() as int)[2] == t[2]);
        }
    }
    assert(!matches_at(t, 0, t.len() as int, descriptor_words(DescriptorWords::Diminished)[1])) by {
        let w = descriptor_words(DescriptorWords::Diminished)[1];
        assert(w == "Dim"@);
        if matches_at(t, 0, t.len() as int, w) {
            assert(t.subrange(0, w.len() as int)[0] == t[0]);
            assert(t.subrange(0, w.len() as int)[1] == t[1]);
            assert(t.subrange(0, w.len() as int)[2] == t[2]);
        }
    }
    assert(!matches_at(t, 0, t.len() as int, descriptor_words(DescriptorWords::Diminished)[2])) by {
        let w = descriptor_words(DescriptorWords::Diminished)[2];
        assert(w == "DIM"@);
        if matches_at(t, 0, t.len() as int, w) {
            assert(t.subrange(0, w.len() as int)[0] == t[0]);
            assert(t.subrange(0, w.len() as int)[1] == t[1]);
            assert(t.subrange(0, w.len() as int)[2] == t[2]);
        }
    }
    assert(!matches_at(t, 0, t.len() as int, descriptor_words(DescriptorWords::Diminished)[3])) by {
        let w = descriptor_words(DescriptorWords::Diminished)[3];
        assert(w == "o"@);
        if matches_at(t, 0, t.len() as int, w) {
            assert(t.subrange(0, w.len() as int)[0] == t[0]);
        }
    }
    assert(!matches_at(t, 0, t.len() as int, descriptor_words(DescriptorWords::Diminished)[4])) by {
        let w = descriptor_words(DescriptorWords::Diminished)[4];
        assert(w == "\u{b0}"@);
        if matches_at(t, 0, t.len() as int, w) {
            assert(t.subrange(0, w.len() as int)[0] == t[0]);
        }
    }
    lemma_first_match_none(t, 0, t.len() as int, descriptor_words(DescriptorWords::Diminished));
    assert(!matches_at(t, 0, t.len() as int, descriptor_words(DescriptorWords::Augmented)[0])) by {
        let w = descriptor_words(DescriptorWords::Augmented)[0];
        assert(w == "aug"@);
        if matches_at(t, 0, t.len() as int, w) {
            assert(t.subrange(0, w.len() as int)[0] == t[0]);
            assert(t.subrange(0, w.len() as int)[1] == t[1]);
            assert(t.subrange(0, w.len() as int)[2] == t[2]);
        }
    }
    assert(!matches_at(t, 0, t.len() as int, descriptor_words(DescriptorWords::Augmented)[1])) by {
        let w = descriptor_words(DescriptorWords::Augmented)[1];
        assert(w == "Aug"@);
        if matches_at(t, 0, t.len() as int, w) {
            assert(t.subrange(0, w.len() as int)[0] == t[0]);
            assert(t.subrange(0, w.len() as int)[1] == t[1]);
            assert(t.subrange(0, w.len() as int)[2] == t[2]);
        }
    }
    assert(!matches_at(t, 0, t.len() as int, descriptor_words(DescriptorWords::Augmented)[2])) by {
        let w = descriptor_words(DescriptorWords::Augmented)[2];
        assert(w == "AUG"@);
        if matches_at(t, 0, t.len() as int, w) {
            assert(t.subrange(0, w.len() as int)[0] == t[0]);
            assert(t.subrange(0, w.len() as int)[1] == t[1]);
            assert(t.subrange(0, w.len() as int)[2] == t[2]);
        }
    }
    assert(!matches_at(t, 0, t.len() as int, descriptor_words(DescriptorWords::Augmented)[3])) by {
        let w = descriptor_words(DescriptorWords::Augmented)[3];
        assert(w == "+"@);
        if matches_at(t, 0, t.len() as int, w) {
            assert(t.subrange(0, w.len() as int)[0] == t[0]);
        }
    }
    lemma_first_match_none(t, 0, t.len() as int, descriptor_words(DescriptorWords::Augmented));
    assert(!matches_at(t, 0, t.len() as int, descriptor_words(DescriptorWords::Sus2)[0])) by {
        let w = descriptor_words(DescriptorWords::Sus2)[0];
        assert(w == "sus2"@);
        if matches_at(t, 0, t.len() as int, w) {
            assert(t.subrange(0, w.len() as int)[0] == t[0]);
            assert(t.subrange(0, w.len() as int)[1] == t[1]);
            assert(t.subrange(0, w.len() as int)[2] == t[2]);
            assert(t.subrange(0, w.len() as int)[3] == t[3]);
        }
    }
    assert(!matches_at(t, 0, t.len() as int, descriptor_words(DescriptorWords::Sus2)[1])) by {
        let w = descriptor_words(DescriptorWords::Sus2)[1];
        assert(w == "Sus2"@);
        if matches_at(t, 0, t.len() as int, w) {
            assert(t.subrange(0, w.len() as int)[0] == t[0]);
            assert(t.subrange(0, w.len() as int)[1] == t[1]);
            assert(t.subrange(0, w.len() as int)[2] == t[2]);
        }
    }
    assert(!matches_at(t, 0, t.len() as int, descriptor_words(DescriptorWords::Sus2)[2])) by {
        let w = descriptor_words(DescriptorWords::Sus2)[2];
        assert(w == "SUS2"@);
        if matches_at(t, 0, t.len() as int, w) {
            assert(t.subrange(0, w.len() as int)[0] == t[0]);
            assert(t.subrange(0, w.len() as int)[1] == t[1]);
            assert(t.subrange(0, w.len() as int)[2] == t[2]);
        }
    }
    lemma_first_match_none(t, 0, t.len() as int, descriptor_words(DescriptorWords::Sus2));
    assert(matches_at(t, 0, t.len() as int, descriptor_words(DescriptorWords::Sus4)[0])) by {
        assert(descriptor_words(DescriptorWords::Sus4)[0] == "sus4"@);
        assert(t.subrange(0, 4) =~= "sus4"@);
    }
}

/// The power mark a spec is printed with reads back as power.
proof fn lemma_power_reads_back(spec: ChordSpec)
    requires
        spec.quality == Quality::Power,
        !spec.alt,
        !special_half_dim(spec),
        !crate::symbol::numbered_harmony(spec) || (spec.quality != Quality::Sus2 && spec.quality != Quality::Sus4),
    ensures
        lead_quality(suffix_text(spec)) == Some((Quality::Power, 1int)),
{
    reveal_strlit("maj13");
    reveal_strlit("Maj13");
    reveal_strlit("MAJ13");
    reveal_strlit("M13");
    reveal_strlit("\u{394}13");
    reveal_strlit("\u{25b3}13");
    reveal_strlit("maj11");
    reveal_strlit("Maj11");
    reveal_strlit("MAJ11");
    reveal_strlit("M11");
    reveal_strlit("\u{394}11");
    reveal_strlit("\u{25b3}11");
    reveal_strlit("maj9");
    reveal_strlit("Maj9");
    reveal_strlit("MAJ9");
    reveal_strlit("M9");
    reveal_strlit("\u{394}9");
    reveal_strlit("\u{25b3}9");
    reveal_strlit("maj7");
    reveal_strlit("Maj7");
    reveal_strlit("MAJ7");
    reveal_strlit("M7");
    reveal_strlit("\u{394}7");
    reveal_strlit("\u{25b3}7");
    reveal_strlit("\u{394}");
    reveal_strlit("\u{25b3}");
    reveal_strlit("maj");
    reveal_strlit("Maj");
    reveal_strlit("MAJ");
    reveal_strlit("min");
    reveal_strlit("Min");
    reveal_strlit("MIN");
    reveal_strlit("m");
    reveal_strlit("-");
    reveal_strlit("M");
    reveal_strlit("dim");
    reveal_strlit("Dim");
    reveal_strlit("DIM");
    reveal_strlit("o");
    reveal_strlit("\u{b0}");
    reveal_strlit("aug");
    reveal_strlit("Aug");
    reveal_strlit("AUG");
    reveal_strlit("+");
    reveal_strlit("sus2");
    reveal_strlit("Sus2");
    reveal_strlit("SUS2");
    reveal_strlit("sus4");
    reveal_strlit("Sus4");
    reveal_strlit("SUS4");
    reveal_strlit("sus");
    reveal_strlit("Sus");
    reveal_strlit("SUS");
    reveal_strlit("5");
    let t = suffix_text(spec);
    assert(t =~= seq!['5']);
    assert(!matches_at(t, 0, t.len() as int, descriptor_words(DescriptorWords::MajorExtension)[0])) by {
        let w = descriptor_words(DescriptorWords::MajorExtension)[0];
        assert(w == "maj13"@);
        if matches_at(t, 0, t.len() as int, w) {
            assert(t.subrange(0, w.len() as int)[0] == t[0]);
            assert(t.subrange(0, w.len() as int)[1] == t[1]);
            assert(t.subrange(0, w.len() as int)[2] == t[2]);
        }
    }
    assert(!matches_at(t, 0, t.len() as int, descriptor_words(DescriptorWords::MajorExtension)[1])) by {
        let w = descriptor_words(DescriptorWords::MajorExtension)[1];
        assert(w == "Maj13"@);
        if matches_at(t, 0, t.len() as int, w) {
            assert(t.subrange(0, w.len() as int)[0] == t[0]);
            assert(t.subrange(0, w.len() as int)[1] == t[1]);
            assert(t.subrange(0, w.len() as int)[2] == t[2]);
        }
    }
    assert(!matches_at(t, 0, t.len() as int, descriptor_words(DescriptorWords::MajorExtension)[2])) by {
        let w = descriptor_words(DescriptorWords::MajorExtension)[2];
        assert(w == "MAJ13"@);
        if matches_at(t, 0, t.len() as int, w) {
            assert(t.subrange(0, w.len() as int)[0] == t[0]);
            assert(t.subrange(0, w.len() as int)[1] == t[1]);
            assert(t.subrange(0, w.len() as int)[2] == t[2]);
        }
    }
    assert(!matches_at(t, 0, t.len() as int, descriptor_words(DescriptorWords::MajorExtension)[3])) by {
        let w = descriptor_words(DescriptorWords::MajorExtension)[3];
        assert(w == "M13"@);
        if matches_at(t, 0, t.len() as int, w) {
            assert(t.subrange(0, w.len() as int)[0] == t[0]);
            assert(t.subrange(0, w.len() as int)[1] == t[1]);
            assert(t.subrange(0, w.len() as int)[2] == t[2]);
        }
    }
    assert(!matches_at(t, 0, t.len() as int, descriptor_words(DescriptorWords::MajorExtension)[4])) by {
        let w = descriptor_words(DescriptorWords::MajorExtension)[4];
        assert(w == "\u{394}13"@);
        if matches_at(t, 0, t.len() as int, w) {
            assert(t.subrange(0, w.len() as int)[0] == t[0]);
            assert(t.subrange(0, w.len() as int)[1] == t[1]);
            assert(t.subrange(0, w.len() as int)[2] == t[2]);
        }
    }
    assert(!matches_at(t, 0, t.len() as int, descriptor_words(DescriptorWords::MajorExtension)[5])) by {
        let w = descriptor_words(DescriptorWords::MajorExtension)[5];
        assert(w == "\u{25b3}13"@);
        if matches_at(t, 0, t.len() as int, w) {
            assert(t.subrange(0, w.len() as int)[0] == t[0]);
            assert(t.subrange(0, w.len() as int)[1] == t[1]);
            assert(t.subrange(0, w.len() as int)[2] == t[2]);
        }
    }
    assert(!matches_at(t, 0, t.len() as int, descriptor_words(DescriptorWords::MajorExtension)[6])) by {
        let w = descriptor_words(DescriptorWords::MajorExtension)[6];
        assert(w == "maj11"@);
        if matches_at(t, 0, t.len() as int, w) {
            assert(t.subrange(0, w.len() as int)[0] == t[0]);
            assert(t.subrange(0, w.len() as int)[1] == t[1]);
            assert(t.subrange(0, w.len() as int)[2] == t[2]);
        }
    }
    assert(!matches_at(t, 0, t.len() as int, descriptor_words(DescriptorWords::MajorExtension)[7])) by {
        let w = descriptor_words(DescriptorWords::MajorExtension)[7];
        assert(w == "Maj11"@);
        if matches_at(t, 0, t.len() as int, w) {
            assert(t.subrange(0, w.len() as int)[0] == t[0]);
            assert(t.subrange(0, w.len() as int)[1] == t[1]);
            assert(t.subrange(0, w.len() as int)[2] == t[2]);
        }
    }
    assert(!matches_at(t, 0, t.len() as int, descriptor_words(DescriptorWords::MajorExtension)[8])) by {
        let w = descriptor_words(DescriptorWords::MajorExtension)[8];
        assert(w == "MAJ11"@);
        if matches_at(t, 0, t.len() as int, w) {
            assert(t.subrange(0, w.len() as int)[0] == t[0]);
            assert(t.subrange(0, w.len() as int)[1] == t[1]);
            assert(t.subrange(0, w.len() as int)[2] == t[2]);
        }
    }
    assert(!matches_at(t, 0, t.len() as int, descriptor_words(DescriptorWords::MajorExtension)[9])) by {
        let w = descriptor_words(DescriptorWords::MajorExtension)[9];
        assert(w == "M11"@);
        if matches_at(t, 0, t.len() as int, w) {
            assert(t.subrange(0, w.len() as int)[0] == t[0]);
            assert(t.subrange(0, w.len() as int)[1] == t[1]);
            assert(t.subrange(0, w.len() as int)[2] == t[2]);
        }
    }
    assert(!matches_at(t, 0, t.len() as int, descriptor_words(DescriptorWords::MajorExtension)[10])) by {
        let w = descriptor_words(DescriptorWords::MajorExtension)[10];
        assert(w == "\u{394}11"@);
        if matches_at(t, 0, t.len() as int, w) {
            assert(t.subrange(0, w.len() as int)[0] == t[0]);
            assert(t.subrange(0, w.len() as int)[1] == t[1]);
            assert(t.subrange(0, w.len() as int)[2] == t[2]);
        }
    }
    assert(!matches_at(t, 0, t.len() as int, descriptor_words(DescriptorWords::MajorExtension)[11])) by {
        let w = descriptor_words(DescriptorWords::MajorExtension)[11];
        assert(w == "\u{25b3}11"@);
        if matches_at(t, 0, t.len() as int, w) {
            assert(t.subrange(0, w.len() as int)[0] == t[0]);
            assert(t.subrange(0, w.len() as int)[1] == t[1]);
            assert(t.subrange(0, w.len() as int)[2] == t[2]);
        }
    }
    assert(!matches_at(t, 0, t.len() as int, descriptor_words(DescriptorWords::MajorExtension)[12])) by {
        let w = descriptor_words(DescriptorWords::MajorExtension)[12];
        assert(w == "maj9"@);
        if matches_at(t, 0, t.len() as int, w) {
            assert(t.subrange(0, w.len() as int)[0] == t[0]);
            assert(t.subrange(0, w.len() as int)[1] == t[1]);
            assert(t.subrange(0, w.len() as int)[2] == t[2]);
        }
    }
    assert(!matches_at(t, 0, t.len() as int, descriptor_words(DescriptorWords::MajorExtension)[13])) by {
        let w = descriptor_words(DescriptorWords::MajorExtension)[13];
        assert(w == "Maj9"@);
        if matches_at(t, 0, t.len() as int, w) {
            assert(t.subrange(0, w.len() as int)[0] == t[0]);
            assert(t.subrange(0, w.len() as int)[1] == t[1]);
            assert(t.subrange(0, w.len() as int)[2] == t[2]);
        }
    }
    assert(!matches_at(t, 0, t.len() as int, descriptor_words(DescriptorWords::MajorExtension)[14])) by {
        let w = descriptor_words(DescriptorWords::MajorExtension)[14];
        assert(w == "MAJ9"@);
        if matches_at(t, 0, t.len() as int, w) {
            assert(t.subrange(0, w.len() as int)[0] == t[0]);
            assert(t.subrange(0, w.len() as int)[1] == t[1]);
            assert(t.subrange(0, w.len() as int)[2] == t[2]);
        }
    }
    assert(!matches_at(t, 0, t.len() as int, descriptor_words(DescriptorWords::MajorExtension)[15])) by {
        let w = descriptor_words(DescriptorWords::MajorExtension)[15];
        assert(w == "M9"@);
        if matches_at(t, 0, t.len() as int, w) {
            assert(t.subrange(0, w.len() as int)[0] == t[0]);
            assert(t.subrange(0, w.len() as int)[1] == t[1]);
        }
    }
    assert(!matches_at(t, 0, t.len() as int, descriptor_words(DescriptorWords::MajorExtension)[16])) by {
        let w = descriptor_words(DescriptorWords::MajorExtension)[16];
        assert(w == "\u{394}9"@);
        if matches_at(t, 0, t.len() as int, w) {
            assert(t.subrange(0, w.len() as int)[0] == t[0]);
            assert(t.subrange(0, w.len() as int)[1] == t[1]);
        }
    }
    assert(!matches_at(t, 0, t.len() as int, descriptor_words(DescriptorWords::MajorExtension)[17])) by {
        let w = descriptor_words(DescriptorWords::MajorExtension)[17];
        assert(w == "\u{25b3}9"@);
        if matches_at(t, 0, t.len() as int, w) {
            assert(t.subrange(0, w.len() as int)[0] == t[0]);
            assert(t.subrange(0, w.len() as int)[1] == t[1]);
        }
    }
    assert(!matches_at(t, 0, t.len() as int, descriptor_words(DescriptorWords::MajorExtension)[18])) by {
        let w = descriptor_words(DescriptorWords::MajorExtension)[18];
        assert(w == "maj7"@);
        if matches_at(t, 0, t.len() as int, w) {
            assert(t.subrange(0, w.len() as int)[0] == t[0]);
            assert(t.subrange(0, w.len() as int)[1] == t[1]);
            assert(t.subrange(0, w.len() as int)[2] == t[2]);
        }
    }
    assert(!matches_at(t, 0, t.len() as int, descriptor_words(DescriptorWords::MajorExtension)[19])) by {
        let w = descriptor_words(DescriptorWords::MajorExtension)[19];
        assert(w == "Maj7"@);
        if matches_at(t, 0, t.len() as int, w) {
            assert(t.subrange(0, w.len() as int)[0] == t[0]);
            assert(t.subrange(0, w.len() as int)[1] == t[1]);
            assert(t.subrange(0, w.len() as int)[2] == t[2]);
        }
    }
    assert(!matches_at(t, 0, t.len() as int, descriptor_words(DescriptorWords::MajorExtension)[20])) by {
        let w = descriptor_words(DescriptorWords::MajorExtension)[20];
        assert(w == "MAJ7"@);
        if matches_at(t, 0, t.len() as int, w) {
            assert(t.subrange(0, w.len() as int)[0] == t[0]);
            assert(t.subrange(0, w.len() as int)[1] == t[1]);
            assert(t.subrange(0, w.len() as int)[2] == t[2]);
        }
    }
    assert(!matches_at(t, 0, t.len() as int, descriptor_words(DescriptorWords::MajorExtension)[21])) by {
        let w = descriptor_words(DescriptorWords::MajorExtension)[21];
        assert(w == "M7"@);
        if matches_at(t, 0, t.len() as int, w) {
            assert(t.subrange(0, w.len() as int)[0] == t[0]);
            assert(t.subrange(0, w.len() as int)[1] == t[1]);
        }
    }
    assert(!matches_at(t, 0, t.len() as int, descriptor_words(DescriptorWords::MajorExtension)[22])) by {
        let w = descriptor_words(DescriptorWords::MajorExtension)[22];
        assert(w == "\u{394}7"@);
        if matches_at(t, 0, t.len() as int, w) {
            assert(t.subrange(0, w.len() as int)[0] == t[0]);
            assert(t.subrange(0, w.len() as int)[1] == t[1]);
        }
    }
    assert(!matches_at(t, 0, t.len() as int, descriptor_words(DescriptorWords::MajorExtension)[23])) by {
        let w = descriptor_words(DescriptorWords::MajorExtension)[23];
        assert(w == "\u{25b3}7"@);
        if matches_at(t, 0, t.len() as int, w) {
            assert(t.subrange(0, w.len() as int)[0] == t[0]);
            assert(t.subrange(0, w.len() as int)[1] == t[1]);
        }
    }
    assert(!matches_at(t, 0, t.len() as int, descriptor_words(DescriptorWords::MajorExtension)[24])) by {
        let w = descriptor_words(DescriptorWords::MajorExtension)[24];
        assert(w == "\u{394}"@);
        if matches_at(t, 0, t.len() as int, w) {
            assert(t.subrange(0, w.len() as int)[0] == t[0]);
        }
    }
    assert(!matches_at(t, 0, t.len() as int, descriptor_words(DescriptorWords::MajorExtension)[25])) by {
        let w = descriptor_words(DescriptorWords::MajorExtension)[25];
        assert(w == "\u{25b3}"@);
        if matches_at(t, 0, t.len() as int, w) {
            assert(t.subrange(0, w.len() as int)[0] == t[0]);
        }
    }
    lemma_first_match_none(t, 0, t.len() as int, descriptor_words(DescriptorWords::MajorExtension));
    assert(!matches_at(t, 0, t.len() as int, descriptor_words(DescriptorWords::MajorWord)[0])) by {
        let w = descriptor_words(DescriptorWords::MajorWord)[0];
        assert(w == "maj"@);
        if matches_at(t, 0, t.len() as int, w) {
            assert(t.subrange(0, w.len() as int)[0] == t[0]);
            assert(t.subrange(0, w.len() as int)[1] == t[1]);
            assert(t.subrange(0, w.len() as int)[2] == t[2]);
        }
    }
    assert(!matches_at(t, 0, t.len() as int, descriptor_words(DescriptorWords::MajorWord)[1])) by {
        let w = descriptor_words(DescriptorWords::MajorWord)[1];
        assert(w == "Maj"@);
        if matches_at(t, 0, t.len() as int, w) {
            assert(t.subrange(0, w.len() as int)[0] == t[0]);
            assert(t.subrange(0, w.len() as int)[1] == t[1]);
            assert(t.subrange(0, w.len() as int)[2] == t[2]);
        }
    }
    assert(!matches_at(t, 0, t.len() as int, descriptor_words(DescriptorWords::MajorWord)[2])) by {
        let w = descriptor_words(DescriptorWords::MajorWord)[2];
        assert(w == "MAJ"@);
        if matches_at(t, 0, t.len() as int, w) {
            assert(t.subrange(0, w.len() as int)[0] == t[0]);
            assert(t.subrange(0, w.len() as int)[1] == t[1]);
            assert(t.subrange(0, w.len() as int)[2] == t[2]);
        }
    }
    lemma_first_match_none(t, 0, t.len() as int, descriptor_words(DescriptorWords::MajorWord));
    assert(!matches_at(t, 0, t.len() as int, descriptor_words(DescriptorWords::MinorWord)[0])) by {
        let w = descriptor_words(DescriptorWords::MinorWord)[0];
        assert(w == "min"@);
        if matches_at(t, 0, t.len() as int, w) {
            assert(t.subrange(0, w.len() as int)[0] == t[0]);
            assert(t.subrange(0, w.len() as int)[1] == t[1]);
            assert(t.subrange(0, w.len() as int)[2] == t[2]);
        }
    }
    assert(!matches_at(t, 0, t.len() as int, descriptor_words(DescriptorWords::MinorWord)[1])) by {
        let w = descriptor_words(DescriptorWords::MinorWord)[1];
        assert(w == "Min"@);
        if matches_at(t, 0, t.len() as int, w) {
            assert(t.subrange(0, w.len() as int)[0] == t[0]);
            assert(t.subrange(0, w.len() as int)[1] == t[1]);
            assert(t.subrange(0, w.len() as int)[2] == t[2]);
        }
    }
    assert(!matches_at(t, 0, t.len() as int, descriptor_words(DescriptorWords::MinorWord)[2])) by {
        let w = descriptor_words(DescriptorWords::MinorWord)[2];
        assert(w == "MIN"@);
        if matches_at(t, 0, t.len() as int, w) {
            assert(t.subrange(0, w.len() as int)[0] == t[0]);
            assert(t.subrange(0, w.len() as int)[1] == t[1]);
            assert(t.subrange(0, w.len() as int)[2] == t[2]);
        }
    }
    assert(!matches_at(t, 0, t.len() as int, descriptor_words(DescriptorWords::MinorWord)[3])) by {
        let w = descriptor_words(DescriptorWords::MinorWord)[3];
        assert(w == "m"@);
        if matches_at(t, 0, t.len() as int, w) {
            assert(t.subrange(0, w.len() as int)[0] == t[0]);
        }
    }
    assert(!matches_at(t, 0, t.len() as int, descriptor_words(DescriptorWords::MinorWord)[4])) by {
        let w = descriptor_words(DescriptorWords::MinorWord)[4];
        assert(w == "-"@);
        if matches_at(t, 0, t.len() as int, w) {
            assert(t.subrange(0, w.len() as int)[0] == t[0]);
        }
    }
    lemma_first_match_none(t, 0, t.len() as int, descriptor_words(DescriptorWords::MinorWord));
    assert(!matches_at(t, 0, t.len() as int, descriptor_words(DescriptorWords::MajorLetter)[0])) by {
        let w = descriptor_words(DescriptorWords::MajorLetter)[0];
        assert(w == "M"@);
        if matches_at(t, 0, t.len() as int, w) {
            assert(t.subrange(0, w.len() as int)[0] == t[0]);
        }
    }
    lemma_first_match_none(t, 0, t.len() as int, descriptor_words(DescriptorWords::MajorLetter));
    assert(!matches_at(t, 0, t.len() as int, descriptor_words(DescriptorWords::Diminished)[0])) by {
        let w = descriptor_words(DescriptorWords::Diminished)[0];
        assert(w == "dim"@);
        if matches_at(t, 0, t.len() as int, w) {
            assert(t.subrange(0, w.len() as int)[0] == t[0]);
            assert(t.subrange(0, w.len() as int)[1] == t[1]);
            assert(t.subrange(0, w.len() as int)[2] == t[2]);
        }
    }
    assert(!matches_at(t, 0, t.len() as int, descriptor_words(DescriptorWords::Diminished)[1])) by {
        let w = descriptor_words(DescriptorWords::Diminished)[1];
        assert(w == "Dim"@);
        if matches_at(t, 0, t.len() as int, w) {
            assert(t.subrange(0, w.len() as int)[0] == t[0]);
            assert(t.subrange(0, w.len() as int)[1] == t[1]);
            assert(t.subrange(0, w.len() as int)[2] == t[2]);
        }
    }
    assert(!matches_at(t, 0, t.len() as int, descriptor_words(DescriptorWords::Diminished)[2])) by {
        let w = descriptor_words(DescriptorWords::Diminished)[2];
        assert(w == "DIM"@);
        if matches_at(t, 0, t.len() as int, w) {
            assert(t.subrange(0, w.len() as int)[0] == t[0]);
            assert(t.subrange(0, w.len() as int)[1] == t[1]);
            assert(t.subrange(0, w.len() as int)[2] == t[2]);
        }
    }
    assert(!matches_at(t, 0, t.len() as int, descriptor_words(DescriptorWords::Diminished)[3])) by {
        let w = descriptor_words(DescriptorWords::Diminished)[3];
        assert(w == "o"@);
        if matches_at(t, 0, t.len() as int, w) {
            assert(t.subrange(0, w.len() as int)[0] == t[0]);
        }
    }
    assert(!matches_at(t, 0, t.len() as int, descriptor_words(DescriptorWords::Diminished)[4])) by {
        let w = descriptor_words(DescriptorWords::Diminished)[4];
        assert(w == "\u{b0}"@);
        if matches_at(t, 0, t.len() as int, w) {
            assert(t.subrange(0, w.len() as int)[0] == t[0]);
        }
    }
    lemma_first_match_none(t, 0, t.len() as int, descriptor_words(DescriptorWords::Diminished));
    assert(!matches_at(t, 0, t.len() as int, descriptor_words(DescriptorWords::Augmented)[0])) by {
        let w = descriptor_words(DescriptorWords::Augmented)[0];
        assert(w == "aug"@);
        if matches_at(t, 0, t.len() as int, w) {
            assert(t.subrange(0, w.len() as int)[0] == t[0]);
            assert(t.subrange(0, w.len() as int)[1] == t[1]);
            assert(t.subrange(0, w.len() as int)[2] == t[2]);
        }
    }
    assert(!matches_at(t, 0, t.len() as int, descriptor_words(DescriptorWords::Augmented)[1])) by {
        let w = descriptor_words(DescriptorWords::Augmented)[1];
        assert(w == "Aug"@);
        if matches_at(t, 0, t.len() as int, w) {
            assert(t.subrange(0, w.len() as int)[0] == t[0]);
            assert(t.subrange(0, w.len() as int)[1] == t[1]);
            assert(t.subrange(0, w.len() as int)[2] == t[2]);
        }
    }
    assert(!matches_at(t, 0, t.len() as int, descriptor_words(DescriptorWords::Augmented)[2])) by {
        let w = descriptor_words(DescriptorWords::Augmented)[2];
        assert(w == "AUG"@);
        if matches_at(t, 0, t.len() as int, w) {
            assert(t.subrange(0, w.len() as int)[0] == t[0]);
            assert(t.subrange(0, w.len() as int)[1] == t[1]);
            assert(t.subrange(0, w.len() as int)[2] == t[2]);
        }
    }
    assert(!matches_at(t, 0, t.len() as int, descriptor_words(DescriptorWords::Augmented)[3])) by {
        let w = descriptor_words(DescriptorWords::Augmented)[3];
        assert(w == "+"@);
        if matches_at(t, 0, t.len() as int, w) {
            assert(t.subrange(0, w.len() as int)[0] == t[0]);
        }
    }
    lemma_first_match_none(t, 0, t.len() as int, descriptor_words(DescriptorWords::Augmented));
    assert(!matches_at(t, 0, t.len() as int, descriptor_words(DescriptorWords::Sus2)[0])) by {
        let w = descriptor_words(DescriptorWords::Sus2)[0];
        assert(w == "sus2"@);
        if matches_at(t, 0, t.len() as int, w) {
            assert(t.subrange(0, w.len() as int)[0] == t[0]);
            assert(t.subrange(0, w.len() as int)[1] == t[1]);
            assert(t.subrange(0, w.len() as int)[2] == t[2]);
            assert(t.subrange(0, w.len() as int)[3] == t[3]);
        }
    }
    assert(!matches_at(t, 0, t.len() as int, descriptor_words(DescriptorWords::Sus2)[1])) by {
        let w = descriptor_words(DescriptorWords::Sus2)[1];
        assert(w == "Sus2"@);
        if matches_at(t, 0, t.len() as int, w) {
            assert(t.subrange(0, w.len() as int)[0] == t[0]);
            assert(t.subrange(0, w.len() as int)[1] == t[1]);
            assert(t.subrange(0, w.len() as int)[2] == t[2]);
        }
    }
    assert(!matches_at(t, 0, t.len() as int, descriptor_words(DescriptorWords::Sus2)[2])) by {
        let w = descriptor_words(DescriptorWords::Sus2)[2];
        assert(w == "SUS2"@);
        if matches_at(t, 0, t.len() as int, w) {
            assert(t.subrange(0, w.len() as int)[0] == t[0]);
            assert(t.subrange(0, w.len() as int)[1] == t[1]);
            assert(t.subrange(0, w.len() as int)[2] == t[2]);
        }
    }
    lemma_first_match_none(t, 0, t.len() as int, descriptor_words(DescriptorWords::Sus2));
    assert(!matches_at(t, 0, t.len() as int, descriptor_words(DescriptorWords::Sus4)[0])) by {
        let w = descriptor_words(DescriptorWords::Sus4)[0];
        assert(w == "sus4"@);
        if matches_at(t, 0, t.len() as int, w) {
            assert(t.subrange(0, w.len() as int)[0] == t[0]);
            assert(t.subrange(0, w.len() as int)[1] == t[1]);
            assert(t.subrange(0, w.len() as int)[2] == t[2]);
        }
    }
    assert(!matches_at(t, 0, t.len() as int, descriptor_words(DescriptorWords::Sus4)[1])) by {
        let w = descriptor_words(DescriptorWords::Sus4)[1];
        assert(w == "Sus4"@);
        if matches_at(t, 0, t.len() as int, w) {
            assert(t.subrange(0, w.len() as int)[0] == t[0]);
            assert(t.subrange(0, w.len() as int)[1] == t[1]);
            assert(t.subrange(0, w.len() as int)[2] == t[2]);
        }
    }
    assert(!matches_at(t, 0, t.len() as int, descriptor_words(DescriptorWords::Sus4)[2])) by {
        let w = descriptor_words(DescriptorWords::Sus4)[2];
        assert(w == "SUS4"@);
        if matches_at(t, 0, t.len() as int, w) {
            assert(t.subrange(0, w.len() as int)[0] == t[0]);
            assert(t.subrange(0, w.len() as int)[1] == t[1]);
            assert(t.subrange(0, w.len() as int)[2] == t[2]);
        }
    }
    assert(!matches_at(t, 0, t.len() as int, descriptor_words(DescriptorWords::Sus4)[3])) by {
        let w = descriptor_words(DescriptorWords::Sus4)[3];
        assert(w == "sus"@);
        if matches_at(t, 0, t.len() as int, w) {
            assert(t.subrange(0, w.len() as int)[0] == t[0]);
            assert(t.subrange(0, w.len() as int)[1] == t[1]);
            assert(t.subrange(0, w.len() as int)[2] == t[2]);
        }
    }
    assert(!matches_at(t, 0, t.len() as int, descriptor_words(DescriptorWords::Sus4)[4])) by {
        let w = descriptor_words(DescriptorWords::Sus4)[4];
        assert(w == "Sus"@);
        if matches_at(t, 0, t.len() as int, w) {
            assert(t.subrange(0, w.len() as int)[0] == t[0]);
            assert(t.subrange(0, w.len() as int)[1] == t[1]);
            assert(t.subrange(0, w.len() as int)[2] == t[2]);
        }
    }
    assert(!matches_at(t, 0, t.len() as int, descriptor_words(DescriptorWords::Sus4)[5])) by {
        let w = descriptor_words(DescriptorWords::Sus4)[5];
        assert(w == "SUS"@);
        if matches_at(t, 0, t.len() as int, w) {
            assert(t.subrange(0, w.len() as int)[0] == t[0]);
            assert(t.subrange(0, w.len() as int)[1] == t[1]);
            assert(t.subrange(0, w.len() as int)[2] == t[2]);
        }
    }
    lemma_first_match_none(t, 0, t.len() as int, descriptor_words(DescriptorWords::Sus4));
    assert(matches_at(t, 0, t.len() as int, descriptor_words(DescriptorWords::Power)[0])) by {
        assert(descriptor_words(DescriptorWords::Power)[0] == "5"@);
        assert(t.subrange(0, 1) =~= "5"@);
    }
}

/// A major chord's printed suffix reads back as no written quality, or as major.
proof fn lemma_major_reads_back(spec: ChordSpec)
    requires
        spec.quality == Quality::Major,
        !spec.alt,
    ensures
        lead_quality(suffix_text(spec)) is None || (lead_quality(suffix_text(spec))->0).0 == Quality::Major,
{
    reveal_strlit("maj13");
    reveal_strlit("Maj13");
    reveal_strlit("MAJ13");
    reveal_strlit("M13");
    reveal_strlit("\u{394}13");
    reveal_strlit("\u{25b3}13");
    reveal_strlit("maj11");
    reveal_strlit("Maj11");
    reveal_strlit("MAJ11");
    reveal_strlit("M11");
    reveal_strlit("\u{394}11");
    reveal_strlit("\u{25b3}11");
    reveal_strlit("maj9");
    reveal_strlit("Maj9");
    reveal_strlit("MAJ9");
    reveal_strlit("M9");
    reveal_strlit("\u{394}9");
    reveal_strlit("\u{25b3}9");
    reveal_strlit("maj7");
    reveal_strlit("Maj7");
    reveal_strlit("MAJ7");
    reveal_strlit("M7");
    reveal_strlit("\u{394}7");
    reveal_strlit("\u{25b3}7");
    reveal_strlit("\u{394}");
    reveal_strlit("\u{25b3}");
    reveal_strlit("maj");
    reveal_strlit("Maj");
    reveal_strlit("MAJ");
    reveal_strlit("min");
    reveal_strlit("Min");
    reveal_strlit("MIN");
    reveal_strlit("m");
    reveal_strlit("-");
    reveal_strlit("M");
    reveal_strlit("dim");
    reveal_strlit("Dim");
    reveal_strlit("DIM");
    reveal_strlit("o");
    reveal_strlit("\u{b0}");
    reveal_strlit("aug");
    reveal_strlit("Aug");
    reveal_strlit("AUG");
    reveal_strlit("+");
    reveal_strlit("sus2");
    reveal_strlit("Sus2");
    reveal_strlit("SUS2");
    reveal_strlit("sus4");
    reveal_strlit("Sus4");
    reveal_strlit("SUS4");
    reveal_strlit("sus");
    reveal_strlit("Sus");
    reveal_strlit("SUS");
    reveal_strlit("5");
    let t = suffix_text(spec);
    lemma_rest_start(spec);
    assert(t == quality_text(spec) + suffix_rest(spec));
    if t.len() > 0 && t[0] == 'm' {
        assert(t[1] == 'a' && t[2] == 'j');
        assert(!matches_at(t, 0, t.len() as int, descriptor_words(DescriptorWords::Diminished)[0])) by {
            let w = descriptor_words(DescriptorWords::Diminished)[0];
            assert(w == "dim"@);
            if matches_at(t, 0, t.len() as int, w) {
                assert(t.subrange(0, w.len() as int)[0] == t[0]);
                assert(t.subrange(0, w.len() as int)[1] == t[1]);
                assert(t.subrange(0, w.len() as int)[2] == t[2]);
            }
        }
        assert(!matches_at(t, 0, t.len() as int, descriptor_words(DescriptorWords::Diminished)[1])) by {
            let w = descriptor_words(DescriptorWords::Diminished)[1];
            assert(w == "Dim"@);
            if matches_at(t, 0, t.len() as int, w) {
                assert(t.subrange(0, w.len() as int)[0] == t[0]);
                assert(t.subrange(0, w.len() as int)[1] == t[1]);
                assert(t.subrange(0, w.len() as int)[2] == t[2]);
            }
        }
        assert(!matches_at(t, 0, t.len() as int, descriptor_words(DescriptorWords::Diminished)[2])) by {
            let w = descriptor_words(DescriptorWords::Diminished)[2];
            assert(w == "DIM"@);
            if matches_at(t, 0, t.len() as int, w) {
                assert(t.subrange(0, w.len() as int)[0] == t[0]);
                assert(t.subrange(0, w.len() as int)[1] == t[1]);
                assert(t.subrange(0, w.len() as int)[2] == t[2]);
            }
        }
        assert(!matches_at(t, 0, t.len() as int, descriptor_words(DescriptorWords::Diminished)[3])) by {
            let w = descriptor_words(DescriptorWords::Diminished)[3];
            assert(w == "o"@);
            if matches_at(t, 0, t.len() as int, w) {
                assert(t.subrange(0, w.len() as int)[0] == t[0]);
            }
        }
        assert(!matches_at(t, 0, t.len() as int, descriptor_words(DescriptorWords::Diminished)[4])) by {
            let w = descriptor_words(DescriptorWords::Diminished)[4];
            assert(w == "\u{b0}"@);
            if matches_at(t, 0, t.len() as int, w) {
                assert(t.subrange(0, w.len() as int)[0] == t[0]);
            }
        }
        lemma_first_match_none(t, 0, t.len() as int, descriptor_words(DescriptorWords::Diminished));
        assert(!matches_at(t, 0, t.len() as int, descriptor_words(DescriptorWords::Augmented)[0])) by {
            let w = descriptor_words(DescriptorWords::Augmented)[0];
            assert(w == "aug"@);
            if matches_at(t, 0, t.len() as int, w) {
                assert(t.subrange(0, w.len() as int)[0] == t[0]);
                assert(t.subrange(0, w.len() as int)[1] == t[1]);
                assert(t.subrange(0, w.len() as int)[2] == t[2]);
            }
        }
        assert(!matches_at(t, 0, t.len() as int, descriptor_words(DescriptorWords::Augmented)[1])) by {
            let w = descriptor_words(DescriptorWords::Augmented)[1];
            assert(w == "Aug"@);
            if matches_at(t, 0, t.len() as int, w) {
                assert(t.subrange(0, w.len() as int)[0] == t[0]);
                assert(t.subrange(0, w.len() as int)[1] == t[1]);
                assert(t.subrange(0, w.len() as int)[2] == t[2]);
            }
        }
        assert(!matches_at(t, 0, t.len() as int, descriptor_words(DescriptorWords::Augmented)[2])) by {
            let w = descriptor_words(DescriptorWords::Augmented)[2];
            assert(w == "AUG"@);
            if matches_at(t, 0, t.len() as int, w) {
                assert(t.subrange(0, w.len() as int)[0] == t[0]);
                assert(t.subrange(0, w.len() as int)[1] == t[1]);
                assert(t.subrange(0, w.len() as int)[2] == t[2]);
            }
        }
        assert(!matches_at(t, 0, t.len() as int, descriptor_words(DescriptorWords::Augmented)[3])) by {
            let w = descriptor_words(DescriptorWords::Augmented)[3];
            assert(w == "+"@);
            if matches_at(t, 0, t.len() as int, w) {
                assert(t.subrange(0, w.len() as int)[0] == t[0]);
            }
        }
        lemma_first_match_none(t, 0, t.len() as int, descriptor_words(DescriptorWords::Augmented));
        assert(!matches_at(t, 0, t.len() as int, descriptor_words(DescriptorWords::Sus2)[0])) by {
            let w = descriptor_words(DescriptorWords::Sus2)[0];
            assert(w == "sus2"@);
            if matches_at(t, 0, t.len() as int, w) {
                assert(t.subrange(0, w.len() as int)[0] == t[0]);
                assert(t.subrange(0, w.len() as int)[1] == t[1]);
                assert(t.subrange(0, w.len() as int)[2] == t[2]);
            }
        }
        assert(!matches_at(t, 0, t.len() as int, descriptor_words(DescriptorWords::Sus2)[1])) by {
            let w = descriptor_words(DescriptorWords::Sus2)[1];
            assert(w == "Sus2"@);
            if matches_at(t, 0, t.len() as int, w) {
                assert(t.subrange(0, w.len() as int)[0] == t[0]);
                assert(t.subrange(0, w.len() as int)[1] == t[1]);
                assert(t.subrange(0, w.len() as int)[2] == t[2]);
            }
        }
        assert(!matches_at(t, 0, t.len() as int, descriptor_words(DescriptorWords::Sus2)[2])) by {
            let w = descriptor_words(DescriptorWords::Sus2)[2];
            assert(w == "SUS2"@);
            if matches_at(t, 0, t.len() as int, w) {
                assert(t.subrange(0, w.len() as int)[0] == t[0]);
                assert(t.subrange(0, w.len() as int)[1] == t[1]);
                assert(t.subrange(0, w.len() as int)[2] == t[2]);
            }
        }
        lemma_first_match_none(t, 0, t.len() as int, descriptor_words(DescriptorWords::Sus2));
        assert(!matches_at(t, 0, t.len() as int, descriptor_words(DescriptorWords::Sus4)[0])) by {
            let w = descriptor_words(DescriptorWords::Sus4)[0];
            assert(w == "sus4"@);
            if matches_at(t, 0, t.len() as int, w) {
                assert(t.subrange(0, w.len() as int)[0] == t[0]);
                assert(t.subrange(0, w.len() as int)[1] == t[1]);
                assert(t.subrange(0, w.len() as int)[2] == t[2]);
            }
        }
        assert(!matches_at(t, 0, t.len() as int, descriptor_words(DescriptorWords::Sus4)[1])) by {
            let w = descriptor_words(DescriptorWords::Sus4)[1];
            assert(w == "Sus4"@);
            if matches_at(t, 0, t.len() as int, w) {
                assert(t.subrange(0, w.len() as int)[0] == t[0]);
                assert(t.subrange(0, w.len() as int)[1] == t[1]);
                assert(t.subrange(0, w.len() as int)[2] == t[2]);
            }
        }
        assert(!matches_at(t, 0, t.len() as int, descriptor_words(DescriptorWords::Sus4)[2])) by {
            let w = descriptor_words(DescriptorWords::Sus4)[2];
            assert(w == "SUS4"@);
            if matches_at(t, 0, t.len() as int, w) {
                assert(t.subrange(0, w.len() as int)[0] == t[0]);
                assert(t.subrange(0, w.len() as int)[1] == t[1]);
                assert(t.subrange(0, w.len() as int)[2] == t[2]);
            }
        }
        assert(!matches_at(t, 0, t.len() as int, descriptor_words(DescriptorWords::Sus4)[3])) by {
            let w = descriptor_words(DescriptorWords::Sus4)[3];
            assert(w == "sus"@);
            if matches_at(t, 0, t.len() as int, w) {
                assert(t.subrange(0, w.len() as int)[0] == t[0]);
                assert(t.subrange(0, w.len() as int)[1] == t[1]);
                assert(t.subrange(0, w.len() as int)[2] == t[2]);
            }
        }
        assert(!matches_at(t, 0, t.len() as int, descriptor_words(DescriptorWords::Sus4)[4])) by {
            let w = descriptor_words(DescriptorWords::Sus4)[4];
            assert(w == "Sus"@);
            if matches_at(t, 0, t.len() as int, w) {
                assert(t.subrange(0, w.len() as int)[0] == t[0]);
                assert(t.subrange(0, w.len() as int)[1] == t[1]);
                assert(t.subrange(0, w.len() as int)[2] == t[2]);
            }
        }
        assert(!matches_at(t, 0, t.len() as int, descriptor_words(DescriptorWords::Sus4)[5])) by {
            let w = descriptor_words(DescriptorWords::Sus4)[5];
            assert(w == "SUS"@);
            if matches_at(t, 0, t.len() as int, w) {
                assert(t.subrange(0, w.len() as int)[0] == t[0]);
                assert(t.subrange(0, w.len() as int)[1] == t[1]);
                assert(t.subrange(0, w.len() as int)[2] == t[2]);
            }
        }
        lemma_first_match_none(t, 0, t.len() as int, descriptor_words(DescriptorWords::Sus4));
        assert(!matches_at(t, 0, t.len() as int, descriptor_words(DescriptorWords::Power)[0])) by {
            let w = descriptor_words(DescriptorWords::Power)[0];
            assert(w == "5"@);
            if matches_at(t, 0, t.len() as int, w) {
                assert(t.subrange(0, w.len() as int)[0] == t[0]);
            }
        }
        lemma_first_match_none(t, 0, t.len() as int, descriptor_words(DescriptorWords::Power));
        if first_match(t, 0, t.len() as int, descriptor_words(DescriptorWords::MajorExtension)) is None {
            assert(matches_at(t, 0, t.len() as int, descriptor_words(DescriptorWords::MajorWord)[0])) by {
                assert(descriptor_words(DescriptorWords::MajorWord)[0] == "maj"@);
                assert(t.subrange(0, 3) =~= "maj"@);
            }
        }
    } else {
        assert(!matches_at(t, 0, t.len() as int, descriptor_words(DescriptorWords::MajorExtension)[0])) by {
            let w = descriptor_words(DescriptorWords::MajorExtension)[0];
            assert(w == "maj13"@);
            if matches_at(t, 0, t.len() as int, w) {
                assert(t.subrange(0, w.len() as int)[0] == t[0]);
                assert(t.subrange(0, w.len() as int)[1] == t[1]);
                assert(t.subrange(0, w.len() as int)[2] == t[2]);
            }
        }
        assert(!matches_at(t, 0, t.len() as int, descriptor_words(DescriptorWords::MajorExtension)[1])) by {
            let w = descriptor_words(DescriptorWords::MajorExtension)[1];
            assert(w == "Maj13"@);
            if matches_at(t, 0, t.len() as int, w) {
                assert(t.subrange(0, w.len() as int)[0] == t[0]);
                assert(t.subrange(0, w.len() as int)[1] == t[1]);
                assert(t.subrange(0, w.len() as int)[2] == t[2]);
            }
        }
        assert(!matches_at(t, 0, t.len() as int, descriptor_words(DescriptorWords::MajorExtension)[2])) by {
            let w = descriptor_words(DescriptorWords::MajorExtension)[2];
            assert(w == "MAJ13"@);
            if matches_at(t, 0, t.len() as int, w) {
                assert(t.subrange(0, w.len() as int)[0] == t[0]);
                assert(t.subrange(0, w.len() as int)[1] == t[1]);
                assert(t.subrange(0, w.len() as int)[2] == t[2]);
            }
        }
        assert(!matches_at(t, 0, t.len() as int, descriptor_words(DescriptorWords::MajorExtension)[3])) by {
            let w = descriptor_words(DescriptorWords::MajorExtension)[3];
            assert(w == "M13"@);
            if matches_at(t, 0, t.len() as int, w) {
                assert(t.subrange(0, w.len() as int)[0] == t[0]);
                assert(t.subrange(0, w.len() as int)[1] == t[1]);
                assert(t.subrange(0, w.len() as int)[2] == t[2]);
            }
        }
        assert(!matches_at(t, 0, t.len() as int, descriptor_words(DescriptorWords::MajorExtension)[4])) by {
            let w = descriptor_words(DescriptorWords::MajorExtension)[4];
            assert(w == "\u{394}13"@);
            if matches_at(t, 0, t.len() as int, w) {
                assert(t.subrange(0, w.len() as int)[0] == t[0]);
                assert(t.subrange(0, w.len() as int)[1] == t[1]);
                assert(t.subrange(0, w.len() as int)[2] == t[2]);
            }
        }
        assert(!matches_at(t, 0, t.len() as int, descriptor_words(DescriptorWords::MajorExtension)[5])) by {
            let w = descriptor_words(DescriptorWords::MajorExtension)[5];
            assert(w == "\u{25b3}13"@);
            if matches_at(t, 0, t.len() as int, w) {
                assert(t.subrange(0, w.len() as int)[0] == t[0]);
                assert(t.subrange(0, w.len() as int)[1] == t[1]);
                assert(t.subrange(0, w.len() as int)[2] == t[2]);
            }
        }
        assert(!matches_at(t, 0, t.len() as int, descriptor_words(DescriptorWords::MajorExtension)[6])) by {
            let w = descriptor_words(DescriptorWords::MajorExtension)[6];
            assert(w == "maj11"@);
            if matches_at(t, 0, t.len() as int, w) {
                assert(t.subrange(0, w.len() as int)[0] == t[0]);
                assert(t.subrange(0, w.len() as int)[1] == t[1]);
                assert(t.subrange(0, w.len() as int)[2] == t[2]);
            }
        }
        assert(!matches_at(t, 0, t.len() as int, descriptor_words(DescriptorWords::MajorExtension)[7])) by {
            let w = descriptor_words(DescriptorWords::MajorExtension)[7];
            assert(w == "Maj11"@);
            if matches_at(t, 0, t.len() as int, w) {
                assert(t.subrange(0, w.len() as int)[0] == t[0]);
                assert(t.subrange(0, w.len() as int)[1] == t[1]);
                assert(t.subrange(0, w.len() as int)[2] == t[2]);
            }
        }
        assert(!matches_at(t, 0, t.len() as int, descriptor_words(DescriptorWords::MajorExtension)[8])) by {
            let w = descriptor_words(DescriptorWords::MajorExtension)[8];
            assert(w == "MAJ11"@);
            if matches_at(t, 0, t.len() as int, w) {
                assert(t.subrange(0, w.len() as int)[0] == t[0]);
                assert(t.subrange(0, w.len() as int)[1] == t[1]);
                assert(t.subrange(0, w.len() as int)[2] == t[2]);
            }
        }
        assert(!matches_at(t, 0, t.len() as int, descriptor_words(DescriptorWords::MajorExtension)[9])) by {
            let w = descriptor_words(DescriptorWords::MajorExtension)[9];
            assert(w == "M11"@);
            if matches_at(t, 0, t.len() as int, w) {
                assert(t.subrange(0, w.len() as int)[0] == t[0]);
                assert(t.subrange(0, w.len() as int)[1] == t[1]);
                assert(t.subrange(0, w.len() as int)[2] == t[2]);
            }
        }
        assert(!matches_at(t, 0, t.len() as int, descriptor_words(DescriptorWords::MajorExtension)[10])) by {
            let w = descriptor_words(DescriptorWords::MajorExtension)[10];
            assert(w == "\u{394}11"@);
            if matches_at(t, 0, t.len() as int, w) {
                assert(t.subrange(0, w.len() as int)[0] == t[0]);
                assert(t.subrange(0, w.len() as int)[1] == t[1]);
                assert(t.subrange(0, w.len() as int)[2] == t[2]);
            }
        }
        assert(!matches_at(t, 0, t.len() as int, descriptor_words(DescriptorWords::MajorExtension)[11])) by {
            let w = descriptor_words(DescriptorWords::MajorExtension)[11];
            assert(w == "\u{25b3}11"@);
            if matches_at(t, 0, t.len() as int, w) {
                assert(t.subrange(0, w.len() as int)[0] == t[0]);
                assert(t.subrange(0, w.len() as int)[1] == t[1]);
                assert(t.subrange(0, w.len() as int)[2] == t[2]);
            }
        }
        assert(!matches_at(t, 0, t.len() as int, descriptor_words(DescriptorWords::MajorExtension)[12])) by {
            let w = descriptor_words(DescriptorWords::MajorExtension)[12];
            assert(w == "maj9"@);
            if matches_at(t, 0, t.len() as int, w) {
                assert(t.subrange(0, w.len() as int)[0] == t[0]);
                assert(t.subrange(0, w.len() as int)[1] == t[1]);
                assert(t.subrange(0, w.len() as int)[2] == t[2]);
            }
        }
        assert(!matches_at(t, 0, t.len() as int, descriptor_words(DescriptorWords::MajorExtension)[13])) by {
            let w = descriptor_words(DescriptorWords::MajorExtension)[13];
            assert(w == "Maj9"@);
            if matches_at(t, 0, t.len() as int, w) {
                assert(t.subrange(0, w.len() as int)[0] == t[0]);
                assert(t.subrange(0, w.len() as int)[1] == t[1]);
                assert(t.subrange(0, w.len() as int)[2] == t[2]);
            }
        }
        assert(!matches_at(t, 0, t.len() as int, descriptor_words(DescriptorWords::MajorExtension)[14])) by {
            let w = descriptor_words(DescriptorWords::MajorExtension)[14];
            assert(w == "MAJ9"@);
            if matches_at(t, 0, t.len() as int, w) {
                assert(t.subrange(0, w.len() as int)[0] == t[0]);
                assert(t.subrange(0, w.len() as int)[1] == t[1]);
                assert(t.subrange(0, w.len() as int)[2] == t[2]);
            }
        }
        assert(!matches_at(t, 0, t.len() as int, descriptor_words(DescriptorWords::MajorExtension)[15])) by {
            let w = descriptor_words(DescriptorWords::MajorExtension)[15];
            assert(w == "M9"@);
            if matches_at(t, 0, t.len() as int, w) {
                assert(t.subrange(0, w.len() as int)[0] == t[0]);
                assert(t.subrange(0, w.len() as int)[1] == t[1]);
            }
        }
        assert(!matches_at(t, 0, t.len() as int, descriptor_words(DescriptorWords::MajorExtension)[16])) by {
            let w = descriptor_words(DescriptorWords::MajorExtension)[16];
            assert(w == "\u{394}9"@);
            if matches_at(t, 0, t.len() as int, w) {
                assert(t.subrange(0, w.len() as int)[0] == t[0]);
                assert(t.subrange(0, w.len() as int)[1] == t[1]);
            }
        }
        assert(!matches_at(t, 0, t.len() as int, descriptor_words(DescriptorWords::MajorExtension)[17])) by {
            let w = descriptor_words(DescriptorWords::MajorExtension)[17];
            assert(w == "\u{25b3}9"@);
            if matches_at(t, 0, t.len() as int, w) {
                assert(t.subrange(0, w.len() as int)[0] == t[0]);
                assert(t.subrange(0, w.len() as int)[1] == t[1]);
            }
        }
        assert(!matches_at(t, 0, t.len() as int, descriptor_words(DescriptorWords::MajorExtension)[18])) by {
            let w = descriptor_words(DescriptorWords::MajorExtension)[18];
            assert(w == "maj7"@);
            if matches_at(t, 0, t.len() as int, w) {
                assert(t.subrange(0, w.len() as int)[0] == t[0]);
                assert(t.subrange(0, w.len() as int)[1] == t[1]);
                assert(t.subrange(0, w.len() as int)[2] == t[2]);
            }
        }
        assert(!matches_at(t, 0, t.len() as int, descriptor_words(DescriptorWords::MajorExtension)[19])) by {
            let w = descriptor_words(DescriptorWords::MajorExtension)[19];
            assert(w == "Maj7"@);
            if matches_at(t, 0, t.len() as int, w) {
                assert(t.subrange(0, w.len() as int)[0] == t[0]);
                assert(t.subrange(0, w.len() as int)[1] == t[1]);
                assert(t.subrange(0, w.len() as int)[2] == t[2]);
            }
        }
        assert(!matches_at(t, 0, t.len() as int, descriptor_words(DescriptorWords::MajorExtension)[20])) by {
            let w = descriptor_words(DescriptorWords::MajorExtension)[20];
            assert(w == "MAJ7"@);
            if matches_at(t, 0, t.len() as int, w) {
                assert(t.subrange(0, w.len() as int)[0] == t[0]);
                assert(t.subrange(0, w.len() as int)[1] == t[1]);
                assert(t.subrange(0, w.len() as int)[2] == t[2]);
            }
        }
        assert(!matches_at(t, 0, t.len() as int, descriptor_words(DescriptorWords::MajorExtension)[21])) by {
            let w = descriptor_words(DescriptorWords::MajorExtension)[21];
            assert(w == "M7"@);
            if matches_at(t, 0, t.len() as int, w) {
                assert(t.subrange(0, w.len() as int)[0] == t[0]);
                assert(t.subrange(0, w.len() as int)[1] == t[1]);
            }
        }
        assert(!matches_at(t, 0, t.len() as int, descriptor_words(DescriptorWords::MajorExtension)[22])) by {
            let w = descriptor_words(DescriptorWords::MajorExtension)[22];
            assert(w == "\u{394}7"@);
            if matches_at(t, 0, t.len() as int, w) {
                assert(t.subrange(0, w.len() as int)[0] == t[0]);
                assert(t.subrange(0, w.len() as int)[1] == t[1]);
            }
        }
        assert(!matches_at(t, 0, t.len() as int, descriptor_words(DescriptorWords::MajorExtension)[23])) by {
            let w = descriptor_words(DescriptorWords::MajorExtension)[23];
            assert(w == "\u{25b3}7"@);
            if matches_at(t, 0, t.len() as int, w) {
                assert(t.subrange(0, w.len() as int)[0] == t[0]);
                assert(t.subrange(0, w.len() as int)[1] == t[1]);
            }
        }
        assert(!matches_at(t, 0, t.len() as int, descriptor_words(DescriptorWords::MajorExtension)[24])) by {
            let w = descriptor_words(DescriptorWords::MajorExtension)[24];
            assert(w == "\u{394}"@);
            if matches_at(t, 0, t.len() as int, w) {
                assert(t.subrange(0, w.len() as int)[0] == t[0]);
            }
        }
        assert(!matches_at(t, 0, t.len() as int, descriptor_words(DescriptorWords::MajorExtension)[25])) by {
            let w = descriptor_words(DescriptorWords::MajorExtension)[25];
            assert(w == "\u{25b3}"@);
            if matches_at(t, 0, t.len() as int, w) {
                assert(t.subrange(0, w.len() as int)[0] == t[0]);
            }
        }
        lemma_first_match_none(t, 0, t.len() as int, descriptor_words(DescriptorWords::MajorExtension));
        assert(!matches_at(t, 0, t.len() as int, descriptor_words(DescriptorWords::MajorWord)[0])) by {
            let w = descriptor_words(DescriptorWords::MajorWord)[0];
            assert(w == "maj"@);
            if matches_at(t, 0, t.len() as int, w) {
                assert(t.subrange(0, w.len() as int)[0] == t[0]);
                assert(t.subrange(0, w.len() as int)[1] == t[1]);
                assert(t.subrange(0, w.len() as int)[2] == t[2]);
            }
        }
        assert(!matches_at(t, 0, t.len() as int, descriptor_words(DescriptorWords::MajorWord)[1])) by {
            let w = descriptor_words(DescriptorWords::MajorWord)[1];
            assert(w == "Maj"@);
            if matches_at(t, 0, t.len() as int, w) {
                assert(t.subrange(0, w.len() as int)[0] == t[0]);
                assert(t.subrange(0, w.len() as int)[1] == t[1]);
                assert(t.subrange(0, w.len() as int)[2] == t[2]);
            }
        }
        assert(!matches_at(t, 0, t.len() as int, descriptor_words(DescriptorWords::MajorWord)[2])) by {
            let w = descriptor_words(DescriptorWords::MajorWord)[2];
            assert(w == "MAJ"@);
            if matches_at(t, 0, t.len() as int, w) {
                assert(t.subrange(0, w.len() as int)[0] == t[0]);
                assert(t.subrange(0, w.len() as int)[1] == t[1]);
                assert(t.subrange(0, w.len() as int)[2] == t[2]);
            }
        }
        lemma_first_match_none(t, 0, t.len() as int, descriptor_words(DescriptorWords::MajorWord));
        assert(!matches_at(t, 0, t.len() as int, descriptor_words(DescriptorWords::MinorWord)[0])) by {
            let w = descriptor_words(DescriptorWords::MinorWord)[0];
            assert(w == "min"@);
            if matches_at(t, 0, t.len() as int, w) {
                assert(t.subrange(0, w.len() as int)[0] == t[0]);
                assert(t.subrange(0, w.len() as int)[1] == t[1]);
                assert(t.subrange(0, w.len() as int)[2] == t[2]);
            }
        }
        assert(!matches_at(t, 0, t.len() as int, descriptor_words(DescriptorWords::MinorWord)[1])) by {
            let w = descriptor_words(DescriptorWords::MinorWord)[1];
            assert(w == "Min"@);
            if matches_at(t, 0, t.len() as int, w) {
                assert(t.subrange(0, w.len() as int)[0] == t[0]);
                assert(t.subrange(0, w.len() as int)[1] == t[1]);
                assert(t.subrange(0, w.len() as int)[2] == t[2]);
            }
        }
        assert(!matches_at(t, 0, t.len() as int, descriptor_words(DescriptorWords::MinorWord)[2])) by {
            let w = descriptor_words(DescriptorWords::MinorWord)[2];
            assert(w == "MIN"@);
            if matches_at(t, 0, t.len() as int, w) {
                assert(t.subrange(0, w.len() as int)[0] == t[0]);
                assert(t.subrange(0, w.len() as int)[1] == t[1]);
                assert(t.subrange(0, w.len() as int)[2] == t[2]);
            }
        }
        assert(!matches_at(t, 0, t.len() as int, descriptor_words(DescriptorWords::MinorWord)[3])) by {
            let w = descriptor_words(DescriptorWords::MinorWord)[3];
            assert(w == "m"@);
            if matches_at(t, 0, t.len() as int, w) {
                assert(t.subrange(0, w.len() as int)[0] == t[0]);
            }
        }
        assert(!matches_at(t, 0, t.len() as int, descriptor_words(DescriptorWords::MinorWord)[4])) by {
            let w = descriptor_words(DescriptorWords::MinorWord)[4];
            assert(w == "-"@);
            if matches_at(t, 0, t.len() as int, w) {
                assert(t.subrange(0, w.len() as int)[0] == t[0]);
            }
        }
        lemma_first_match_none(t, 0, t.len() as int, descriptor_words(DescriptorWords::MinorWord));
        assert(!matches_at(t, 0, t.len() as int, descriptor_words(DescriptorWords::MajorLetter)[0])) by {
            let w = descriptor_words(DescriptorWords::MajorLetter)[0];
            assert(w == "M"@);
            if matches_at(t, 0, t.len() as int, w) {
                assert(t.subrange(0, w.len() as int)[0] == t[0]);
            }
        }
        lemma_first_match_none(t, 0, t.len() as int, descriptor_words(DescriptorWords::MajorLetter));
        assert(!matches_at(t, 0, t.len() as int, descriptor_words(DescriptorWords::Diminished)[0])) by {
            let w = descriptor_words(DescriptorWords::Diminished)[0];
            assert(w == "dim"@);
            if matches_at(t, 0, t.len() as int, w) {
                assert(t.subrange(0, w.len() as int)[0] == t[0]);
                assert(t.subrange(0, w.len() as int)[1] == t[1]);
                assert(t.subrange(0, w.len() as int)[2] == t[2]);
            }
        }
        assert(!matches_at(t, 0, t.len() as int, descriptor_words(DescriptorWords::Diminished)[1])) by {
            let w = descriptor_words(DescriptorWords::Diminished)[1];
            assert(w == "Dim"@);
            if matches_at(t, 0, t.len() as int, w) {
                assert(t.subrange(0, w.len() as int)[0] == t[0]);
                assert(t.subrange(0, w.len() as int)[1] == t[1]);
                assert(t.subrange(0, w.len() as int)[2] == t[2]);
            }
        }
        assert(!matches_at(t, 0, t.len() as int, descriptor_words(DescriptorWords::Diminished)[2])) by {
            let w = descriptor_words(DescriptorWords::Diminished)[2];
            assert(w == "DIM"@);
            if matches_at(t, 0, t.len() as int, w) {
                assert(t.subrange(0, w.len() as int)[0] == t[0]);
                assert(t.subrange(0, w.len() as int)[1] == t[1]);
                assert(t.subrange(0, w.len() as int)[2] == t[2]);
            }
        }
        assert(!matches_at(t, 0, t.len() as int, descriptor_words(DescriptorWords::Diminished)[3])) by {
            let w = descriptor_words(DescriptorWords::Diminished)[3];
            assert(w == "o"@);
            if matches_at(t, 0, t.len() as int, w) {
                assert(t.subrange(0, w.len() as int)[0] == t[0]);
            }
        }
        assert(!matches_at(t, 0, t.len() as int, descriptor_words(DescriptorWords::Diminished)[4])) by {
            let w = descriptor_words(DescriptorWords::Diminished)[4];
            assert(w == "\u{b0}"@);
            if matches_at(t, 0, t.len() as int, w) {
                assert(t.subrange(0, w.len() as int)[0] == t[0]);
            }
        }
        lemma_first_match_none(t, 0, t.len() as int, descriptor_words(DescriptorWords::Diminished));
        assert(!matches_at(t, 0, t.len() as int, descriptor_words(DescriptorWords::Augmented)[0])) by {
            let w = descriptor_words(DescriptorWords::Augmented)[0];
            assert(w == "aug"@);
            if matches_at(t, 0, t.len() as int, w) {
                assert(t.subrange(0, w.len() as int)[0] == t[0]);
                assert(t.subrange(0, w.len() as int)[1] == t[1]);
                assert(t.subrange(0, w.len() as int)[2] == t[2]);
            }
        }
        assert(!matches_at(t, 0, t.len() as int, descriptor_words(DescriptorWords::Augmented)[1])) by {
            let w = descriptor_words(DescriptorWords::Augmented)[1];
            assert(w == "Aug"@);
            if matches_at(t, 0, t.len() as int, w) {
                assert(t.subrange(0, w.len() as int)[0] == t[0]);
                assert(t.subrange(0, w.len() as int)[1] == t[1]);
                assert(t.subrange(0, w.len() as int)[2] == t[2]);
            }
        }
        assert(!matches_at(t, 0, t.len() as int, descriptor_words(DescriptorWords::Augmented)[2])) by {
            let w = descriptor_words(DescriptorWords::Augmented)[2];
            assert(w == "AUG"@);
            if matches_at(t, 0, t.len() as int, w) {
                assert(t.subrange(0, w.len() as int)[0] == t[0]);
                assert(t.subrange(0, w.len() as int)[1] == t[1]);
                assert(t.subrange(0, w.len() as int)[2] == t[2]);
            }
        }
        assert(!matches_at(t, 0, t.len() as int, descriptor_words(DescriptorWords::Augmented)[3])) by {
            let w = descriptor_words(DescriptorWords::Augmented)[3];
            assert(w == "+"@);
            if matches_at(t, 0, t.len() as int, w) {
                assert(t.subrange(0, w.len() as int)[0] == t[0]);
            }
        }
        lemma_first_match_none(t, 0, t.len() as int, descriptor_words(DescriptorWords::Augmented));
        assert(!matches_at(t, 0, t.len() as int, descriptor_words(DescriptorWords::Sus2)[0])) by {
            let w = descriptor_words(DescriptorWords::Sus2)[0];
            assert(w == "sus2"@);
            if matches_at(t, 0, t.len() as int, w) {
                assert(t.subrange(0, w.len() as int)[0] == t[0]);
                assert(t.subrange(0, w.len() as int)[1] == t[1]);
                assert(t.subrange(0, w.len() as int)[2] == t[2]);
            }
        }
        assert(!matches_at(t, 0, t.len() as int, descriptor_words(DescriptorWords::Sus2)[1])) by {
            let w = descriptor_words(DescriptorWords::Sus2)[1];
            assert(w == "Sus2"@);
            if matches_at(t, 0, t.len() as int, w) {
                assert(t.subrange(0, w.len() as int)[0] == t[0]);
                assert(t.subrange(0, w.len() as int)[1] == t[1]);
                assert(t.subrange(0, w.len() as int)[2] == t[2]);
            }
        }
        assert(!matches_at(t, 0, t.len() as int, descriptor_words(DescriptorWords::Sus2)[2])) by {
            let w = descriptor_words(DescriptorWords::Sus2)[2];
            assert(w == "SUS2"@);
            if matches_at(t, 0, t.len() as int, w) {
                assert(t.subrange(0, w.len() as int)[0] == t[0]);
                assert(t.subrange(0, w.len() as int)[1] == t[1]);
                assert(t.subrange(0, w.len() as int)[2] == t[2]);
            }
        }
        lemma_first_match_none(t, 0, t.len() as int, descriptor_words(DescriptorWords::Sus2));
        assert(!matches_at(t, 0, t.len() as int, descriptor_words(DescriptorWords::Sus4)[0])) by {
            let w = descriptor_words(DescriptorWords::Sus4)[0];
            assert(w == "sus4"@);
            if matches_at(t, 0, t.len() as int, w) {
                assert(t.subrange(0, w.len() as int)[0] == t[0]);
                assert(t.subrange(0, w.len() as int)[1] == t[1]);
                assert(t.subrange(0, w.len() as int)[2] == t[2]);
            }
        }
        assert(!matches_at(t, 0, t.len() as int, descriptor_words(DescriptorWords::Sus4)[1])) by {
            let w = descriptor_words(DescriptorWords::Sus4)[1];
            assert(w == "Sus4"@);
            if matches_at(t, 0, t.len() as int, w) {
                assert(t.subrange(0, w.len() as int)[0] == t[0]);
                assert(t.subrange(0, w.len() as int)[1] == t[1]);
                assert(t.subrange(0, w.len() as int)[2] == t[2]);
            }
        }
        assert(!matches_at(t, 0, t.len() as int, descriptor_words(DescriptorWords::Sus4)[2])) by {
            let w = descriptor_words(DescriptorWords::Sus4)[2];
            assert(w == "SUS4"@);
            if matches_at(t, 0, t.len() as int, w) {
                assert(t.subrange(0, w.len() as int)[0] == t[0]);
                assert(t.subrange(0, w.len() as int)[1] == t[1]);
                assert(t.subrange(0, w.len() as int)[2] == t[2]);
            }
        }
        assert(!matches_at(t, 0, t.len() as int, descriptor_words(DescriptorWords::Sus4)[3])) by {
            let w = descriptor_words(DescriptorWords::Sus4)[3];
            assert(w == "sus"@);
            if matches_at(t, 0, t.len() as int, w) {
                assert(t.subrange(0, w.len() as int)[0] == t[0]);
                assert(t.subrange(0, w.len() as int)[1] == t[1]);
                assert(t.subrange(0, w.len() as int)[2] == t[2]);
            }
        }
        assert(!matches_at(t, 0, t.len() as int, descriptor_words(DescriptorWords::Sus4)[4])) by {
            let w = descriptor_words(DescriptorWords::Sus4)[4];
            assert(w == "Sus"@);
            if matches_at(t, 0, t.len() as int, w) {
                assert(t.subrange(0, w.len() as int)[0] == t[0]);
                assert(t.subrange(0, w.len() as int)[1] == t[1]);
                assert(t.subrange(0, w.len() as int)[2] == t[2]);
            }
        }
        assert(!matches_at(t, 0, t.len() as int, descriptor_words(DescriptorWords::Sus4)[5])) by {
            let w = descriptor_words(DescriptorWords::Sus4)[5];
            assert(w == "SUS"@);
            if matches_at(t, 0, t.len() as int, w) {
                assert(t.subrange(0, w.len() as int)[0] == t[0]);
                assert(t.subrange(0, w.len() as int)[1] == t[1]);
                assert(t.subrange(0, w.len() as int)[2] == t[2]);
            }
        }
        lemma_first_match_none(t, 0, t.len() as int, descriptor_words(DescriptorWords::Sus4));
        assert(!matches_at(t, 0, t.len() as int, descriptor_words(DescriptorWords::Power)[0])) by {
            let w = descriptor_words(DescriptorWords::Power)[0];
            assert(w == "5"@);
            if matches_at(t, 0, t.len() as int, w) {
                assert(t.subrange(0, w.len() as int)[0] == t[0]);
            }
        }
        lemma_first_match_none(t, 0, t.len() as int, descriptor_words(DescriptorWords::Power));
    }
}

/// The quality mark a spec is printed with reads back as that quality: at
/// the start of a spec's printed suffix the descriptor reader finds exactly
/// the spec's quality and the length of its mark, and at the start of a
/// major chord's suffix it finds no quality, or major.
pub proof fn lemma_quality_reads_back(spec: ChordSpec)
    requires
        !spec.alt,
        !special_half_dim(spec),
        spec.quality == Quality::Sus2 || spec.quality == Quality::Sus4 ==> !crate::symbol::numbered_harmony(spec),
    ensures
        spec.quality == Quality::Major ==> (lead_quality(suffix_text(spec)) is None || (lead_quality(
            suffix_text(spec),
        )->0).0 == Quality::Major),
        spec.quality == Quality::Power ==> lead_quality(suffix_text(spec)) == Some((Quality::Power, 1int)),
        spec.quality != Quality::Major && spec.quality != Quality::Power ==> lead_quality(suffix_text(spec)) == Some(
            (spec.quality, quality_text(spec).len() as int),
        ),
{
    match spec.quality {
        Quality::Major => lemma_major_reads_back(spec),
        Quality::Minor => lemma_minor_reads_back(spec),
        Quality::Diminished => lemma_diminished_reads_back(spec),
        Quality::Augmented => lemma_augmented_reads_back(spec),
        Quality::Sus2 => lemma_sus2_reads_back(spec),
        Quality::Sus4 => lemma_sus4_reads_back(spec),
        Quality::Power => lemma_power_reads_back(spec),
    }
}

/// Reading back the number a minor or diminished seventh is printed with:
/// at the start of any text that begins with the harmony text of a spec
/// whose seventh is the one its quality implies, the reader finds the word
/// for that number, and applying it to any state of the same quality
/// without numbered harmony yet gives the same seventh and extension.
pub proof fn lemma_implied_seventh_reads_back(spec: ChordSpec, t: Seq<char>, st: DescriptorState)
    requires
        spec.seventh == implied_seventh(spec.quality),
        t.len() >= harmony_text(spec).len(),
        t.subrange(0, harmony_text(spec).len() as int) == harmony_text(spec),
        st.spec.quality == spec.quality,
        !numbered_harmony(st.spec),
        !st.half_diminished_can_extend,
    ensures
        ({
            let found = token_at(t, 0);
            &&& found is Some
            &&& (found->0).1 == harmony_text(spec).len()
            &&& apply_token(st, (found->0).0) is Some
            &&& (apply_token(st, (found->0).0)->0).spec.seventh == spec.seventh
            &&& (apply_token(st, (found->0).0)->0).spec.extension == spec.extension
        }),
{
    reveal(token_at);
    reveal(apply_token);
    reveal_strlit("\u{f8}7");
    reveal_strlit("\u{d8}7");
    reveal_strlit("\u{f8}");
    reveal_strlit("\u{d8}");
    reveal_strlit("alt");
    reveal_strlit("Alt");
    reveal_strlit("ALT");
    reveal_strlit("maj13");
    reveal_strlit("Maj13");
    reveal_strlit("MAJ13");
    reveal_strlit("M13");
    reveal_strlit("\u{394}13");
    reveal_strlit("\u{25b3}13");
    reveal_strlit("maj11");
    reveal_strlit("Maj11");
    reveal_strlit("MAJ11");
    reveal_strlit("M11");
    reveal_strlit("\u{394}11");
    reveal_strlit("\u{25b3}11");
    reveal_strlit("maj9");
    reveal_strlit("Maj9");
    reveal_strlit("MAJ9");
    reveal_strlit("M9");
    reveal_strlit("\u{394}9");
    reveal_strlit("\u{25b3}9");
    reveal_strlit("maj7");
    reveal_strlit("Maj7");
    reveal_strlit("MAJ7");
    reveal_strlit("M7");
    reveal_strlit("\u{394}7");
    reveal_strlit("\u{25b3}7");
    reveal_strlit("\u{394}");
    reveal_strlit("\u{25b3}");
    reveal_strlit("sus2");
    reveal_strlit("Sus2");
    reveal_strlit("SUS2");
    reveal_strlit("sus4");
    reveal_strlit("Sus4");
    reveal_strlit("SUS4");
    reveal_strlit("sus");
    reveal_strlit("Sus");
    reveal_strlit("SUS");
    reveal_strlit("add13");
    reveal_strlit("add11");
    reveal_strlit("add4");
    reveal_strlit("add9");
    reveal_strlit("add2");
    reveal_strlit("omit5");
    reveal_strlit("no5");
    reveal_strlit("omit3");
    reveal_strlit("no3");
    reveal_strlit("omit1");
    reveal_strlit("no1");
    reveal_strlit("13");
    reveal_strlit("11");
    reveal_strlit("9");
    reveal_strlit("6/9");
    reveal_strlit("69");
    reveal_strlit("7");
    let h = harmony_text(spec);
    assert forall|j: int| 0 <= j < h.len() implies #[trigger] t[j] == h[j] by {
        assert(t.subrange(0, h.len() as int)[j] == t[j]);
    }
    if spec.extension == Some(Extension::Thirteenth) {
        assert(h =~= seq!['1', '3']);
        assert(!matches_at(t, 0, t.len() as int, descriptor_words(DescriptorWords::HalfDiminishedSeventh)[0])) by {
            let w = descriptor_words(DescriptorWords::HalfDiminishedSeventh)[0];
            assert(w == "\u{f8}7"@);
            if matches_at(t, 0, t.len() as int, w) {
                assert(t.subrange(0, w.len() as int)[0] == t[0]);
            }
        }
        assert(!matches_at(t, 0, t.len() as int, descriptor_words(DescriptorWords::HalfDiminishedSeventh)[1])) by {
            let w = descriptor_words(DescriptorWords::HalfDiminishedSeventh)[1];
            assert(w == "\u{d8}7"@);
            if matches_at(t, 0, t.len() as int, w) {
                assert(t.subrange(0, w.len() as int)[0] == t[0]);
            }
        }
        lemma_first_match_none(t, 0, t.len() as int, descriptor_words(DescriptorWords::HalfDiminishedSeventh));
        assert(!matches_at(t, 0, t.len() as int, descriptor_words(DescriptorWords::HalfDiminished)[0])) by {
            let w = descriptor_words(DescriptorWords::HalfDiminished)[0];
            assert(w == "\u{f8}"@);
            if matches_at(t, 0, t.len() as int, w) {
                assert(t.subrange(0, w.len() as int)[0] == t[0]);
            }
        }
        assert(!matches_at(t, 0, t.len() as int, descriptor_words(DescriptorWords::HalfDiminished)[1])) by {
            let w = descriptor_words(DescriptorWords::HalfDiminished)[1];
            assert(w == "\u{d8}"@);
            if matches_at(t, 0, t.len() as int, w) {
                assert(t.subrange(0, w.len() as int)[0] == t[0]);
            }
        }
        lemma_first_match_none(t, 0, t.len() as int, descriptor_words(DescriptorWords::HalfDiminished));
        assert(!matches_at(t, 0, t.len() as int, descriptor_words(DescriptorWords::Alt)[0])) by {
            let w = descriptor_words(DescriptorWords::Alt)[0];
            assert(w == "alt"@);
            if matches_at(t, 0, t.len() as int, w) {
                assert(t.subrange(0, w.len() as int)[0] == t[0]);
            }
        }
        assert(!matches_at(t, 0, t.len() as int, descriptor_words(DescriptorWords::Alt)[1])) by {
            let w = descriptor_words(DescriptorWords::Alt)[1];
            assert(w == "Alt"@);
            if matches_at(t, 0, t.len() as int, w) {
                assert(t.subrange(0, w.len() as int)[0] == t[0]);
            }
        }
        assert(!matches_at(t, 0, t.len() as int, descriptor_words(DescriptorWords::Alt)[2])) by {
            let w = descriptor_words(DescriptorWords::Alt)[2];
            assert(w == "ALT"@);
            if matches_at(t, 0, t.len() as int, w) {
                assert(t.subrange(0, w.len() as int)[0] == t[0]);
            }
        }
        lemma_first_match_none(t, 0, t.len() as int, descriptor_words(DescriptorWords::Alt));
        assert(!matches_at(t, 0, t.len() as int, descriptor_words(DescriptorWords::Major13)[0])) by {
            let w = descriptor_words(DescriptorWords::Major13)[0];
            assert(w == "maj13"@);
            if matches_at(t, 0, t.len() as int, w) {
                assert(t.subrange(0, w.len() as int)[0] == t[0]);
            }
        }
        assert(!matches_at(t, 0, t.len() as int, descriptor_words(DescriptorWords::Major13)[1])) by {
            let w = descriptor_words(DescriptorWords::Major13)[1];
            assert(w == "Maj13"@);
            if matches_at(t, 0, t.len() as int, w) {
                assert(t.subrange(0, w.len() as int)[0] == t[0]);
            }
        }
        assert(!matches_at(t, 0, t.len() as int, descriptor_words(DescriptorWords::Major13)[2])) by {
            let w = descriptor_words(DescriptorWords::Major13)[2];
            assert(w == "MAJ13"@);
            if matches_at(t, 0, t.len() as int, w) {
                assert(t.subrange(0, w.len() as int)[0] == t[0]);
            }
        }
        assert(!matches_at(t, 0, t.len() as int, descriptor_words(DescriptorWords::Major13)[3])) by {
            let w = descriptor_words(DescriptorWords::Major13)[3];
            assert(w == "M13"@);
            if matches_at(t, 0, t.len() as int, w) {
                assert(t.subrange(0, w.len() as int)[0] == t[0]);
            }
        }
        assert(!matches_at(t, 0, t.len() as int, descriptor_words(DescriptorWords::Major13)[4])) by {
            let w = descriptor_words(DescriptorWords::Major13)[4];
            assert(w == "\u{394}13"@);
            if matches_at(t, 0, t.len() as int, w) {
                assert(t.subrange(0, w.len() as int)[0] == t[0]);
            }
        }
        assert(!matches_at(t, 0, t.len() as int, descriptor_words(DescriptorWords::Major13)[5])) by {
            let w = descriptor_words(DescriptorWords::Major13)[5];
            assert(w == "\u{25b3}13"@);
            if matches_at(t, 0, t.len() as int, w) {
                assert(t.subrange(0, w.len() as int)[0] == t[0]);
            }
        }
        lemma_first_match_none(t, 0, t.len() as int, descriptor_words(DescriptorWords::Major13));
        assert(!matches_at(t, 0, t.len() as int, descriptor_words(DescriptorWords::Major11)[0])) by {
            let w = descriptor_words(DescriptorWords::Major11)[0];
            assert(w == "maj11"@);
            if matches_at(t, 0, t.len() as int, w) {
                assert(t.subrange(0, w.len() as int)[0] == t[0]);
            }
        }
        assert(!matches_at(t, 0, t.len() as int, descriptor_words(DescriptorWords::Major11)[1])) by {
            let w = descriptor_words(DescriptorWords::Major11)[1];
            assert(w == "Maj11"@);
            if matches_at(t, 0, t.len() as int, w) {
                assert(t.subrange(0, w.len() as int)[0] == t[0]);
            }
        }
        assert(!matches_at(t, 0, t.len() as int, descriptor_words(DescriptorWords::Major11)[2])) by {
            let w = descriptor_words(DescriptorWords::Major11)[2];
            assert(w == "MAJ11"@);
            if matches_at(t, 0, t.len() as int, w) {
                assert(t.subrange(0, w.len() as int)[0] == t[0]);
            }
        }
        assert(!matches_at(t, 0, t.len() as int, descriptor_words(DescriptorWords::Major11)[3])) by {
            let w = descriptor_words(DescriptorWords::Major11)[3];
            assert(w == "M11"@);
            if matches_at(t, 0, t.len() as int, w) {
                assert(t.subrange(0, w.len() as int)[0] == t[0]);
            }
        }
        assert(!matches_at(t, 0, t.len() as int, descriptor_words(DescriptorWords::Major11)[4])) by {
            let w = descriptor_words(DescriptorWords::Major11)[4];
            assert(w == "\u{394}11"@);
            if matches_at(t, 0, t.len() as int, w) {
                assert(t.subrange(0, w.len() as int)[0] == t[0]);
            }
        }
        assert(!matches_at(t, 0, t.len() as int, descriptor_words(DescriptorWords::Major11)[5])) by {
            let w = descriptor_words(DescriptorWords::Major11)[5];
            assert(w == "\u{25b3}11"@);
            if matches_at(t, 0, t.len() as int, w) {
                assert(t.subrange(0, w.len() as int)[0] == t[0]);
            }
        }
        lemma_first_match_none(t, 0, t.len() as int, descriptor_words(DescriptorWords::Major11));
        assert(!matches_at(t, 0, t.len() as int, descriptor_words(DescriptorWords::Major9)[0])) by {
            let w = descriptor_words(DescriptorWords::Major9)[0];
            assert(w == "maj9"@);
            if matches_at(t, 0, t.len() as int, w) {
                assert(t.subrange(0, w.len() as int)[0] == t[0]);
            }
        }
        assert(!matches_at(t, 0, t.len() as int, descriptor_words(DescriptorWords::Major9)[1])) by {
            let w = descriptor_words(DescriptorWords::Major9)[1];
            assert(w == "Maj9"@);
            if matches_at(t, 0, t.len() as int, w) {
                assert(t.subrange(0, w.len() as int)[0] == t[0]);
            }
        }
        assert(!matches_at(t, 0, t.len() as int, descriptor_words(DescriptorWords::Major9)[2])) by {
            let w = descriptor_words(DescriptorWords::Major9)[2];
            assert(w == "MAJ9"@);
            if matches_at(t, 0, t.len() as int, w) {
                assert(t.subrange(0, w.len() as int)[0] == t[0]);
            }
        }
        assert(!matches_at(t, 0, t.len() as int, descriptor_words(DescriptorWords::Major9)[3])) by {
            let w = descriptor_words(DescriptorWords::Major9)[3];
            assert(w == "M9"@);
            if matches_at(t, 0, t.len() as int, w) {
                assert(t.subrange(0, w.len() as int)[0] == t[0]);
            }
        }
        assert(!matches_at(t, 0, t.len() as int, descriptor_words(DescriptorWords::Major9)[4])) by {
            let w = descriptor_words(DescriptorWords::Major9)[4];
            assert(w == "\u{394}9"@);
            if matches_at(t, 0, t.len() as int, w) {
                assert(t.subrange(0, w.len() as int)[0] == t[0]);
            }
        }
        assert(!matches_at(t, 0, t.len() as int, descriptor_words(DescriptorWords::Major9)[5])) by {
            let w = descriptor_words(DescriptorWords::Major9)[5];
            assert(w == "\u{25b3}9"@);
            if matches_at(t, 0, t.len() as int, w) {
                assert(t.subrange(0, w.len() as int)[0] == t[0]);
            }
        }
        lemma_first_match_none(t, 0, t.len() as int, descriptor_words(DescriptorWords::Major9));
        assert(!matches_at(t, 0, t.len() as int, descriptor_words(DescriptorWords::Major7)[0])) by {
            let w = descriptor_words(DescriptorWords::Major7)[0];
            assert(w == "maj7"@);
            if matches_at(t, 0, t.len() as int, w) {
                assert(t.subrange(0, w.len() as int)[0] == t[0]);
            }
        }
        assert(!matches_at(t, 0, t.len() as int, descriptor_words(DescriptorWords::Major7)[1])) by {
            let w = descriptor_words(DescriptorWords::Major7)[1];
            assert(w == "Maj7"@);
            if matches_at(t, 0, t.len() as int, w) {
                assert(t.subrange(0, w.len() as int)[0] == t[0]);
            }
        }
        assert(!matches_at(t, 0, t.len() as int, descriptor_words(DescriptorWords::Major7)[2])) by {
            let w = descriptor_words(DescriptorWords::Major7)[2];
            assert(w == "MAJ7"@);
            if matches_at(t, 0, t.len() as int, w) {
                assert(t.subrange(0, w.len() as int)[0] == t[0]);
            }
        }
        assert(!matches_at(t, 0, t.len() as int, descriptor_words(DescriptorWords::Major7)[3])) by {
            let w = descriptor_words(DescriptorWords::Major7)[3];
            assert(w == "M7"@);
            if matches_at(t, 0, t.len() as int, w) {
                assert(t.subrange(0, w.len() as int)[0] == t[0]);
            }
        }
        assert(!matches_at(t, 0, t.len() as int, descriptor_words(DescriptorWords::Major7)[4])) by {
            let w = descriptor_words(DescriptorWords::Major7)[4];
            assert(w == "\u{394}7"@);
            if matches_at(t, 0, t.len() as int, w) {
                assert(t.subrange(0, w.len() as int)[0] == t[0]);
            }
        }
        assert(!matches_at(t, 0, t.len() as int, descriptor_words(DescriptorWords::Major7)[5])) by {
            let w = descriptor_words(DescriptorWords::Major7)[5];
            assert(w == "\u{25b3}7"@);
            if matches_at(t, 0, t.len() as int, w) {
                assert(t.subrange(0, w.len() as int)[0] == t[0]);
            }
        }
        assert(!matches_at(t, 0, t.len() as int, descriptor_words(DescriptorWords::Major7)[6])) by {
            let w = descriptor_words(DescriptorWords::Major7)[6];
            assert(w == "\u{394}"@);
            if matches_at(t, 0, t.len() as int, w) {
                assert(t.subrange(0, w.len() as int)[0] == t[0]);
            }
        }
        assert(!matches_at(t, 0, t.len() as int, descriptor_words(DescriptorWords::Major7)[7])) by {
            let w = descriptor_words(DescriptorWords::Major7)[7];
            assert(w == "\u{25b3}"@);
            if matches_at(t, 0, t.len() as int, w) {
                assert(t.subrange(0, w.len() as int)[0] == t[0]);
            }
        }
        lemma_first_match_none(t, 0, t.len() as int, descriptor_words(DescriptorWords::Major7));
        assert(!matches_at(t, 0, t.len() as int, descriptor_words(DescriptorWords::Sus2)[0])) by {
            let w = descriptor_words(DescriptorWords::Sus2)[0];
            assert(w == "sus2"@);
            if matches_at(t, 0, t.len() as int, w) {
                assert(t.subrange(0, w.len() as int)[0] == t[0]);
            }
        }
        assert(!matches_at(t, 0, t.len() as int, descriptor_words(DescriptorWords::Sus2)[1])) by {
            let w = descriptor_words(DescriptorWords::Sus2)[1];
            assert(w == "Sus2"@);
            if matches_at(t, 0, t.len() as int, w) {
                assert(t.subrange(0, w.len() as int)[0] == t[0]);
            }
        }
        assert(!matches_at(t, 0, t.len() as int, descriptor_words(DescriptorWords::Sus2)[2])) by {
            let w = descriptor_words(DescriptorWords::Sus2)[2];
            assert(w == "SUS2"@);
            if matches_at(t, 0, t.len() as int, w) {
                assert(t.subrange(0, w.len() as int)[0] == t[0]);
            }
        }
        lemma_first_match_none(t, 0, t.len() as int, descriptor_words(DescriptorWords::Sus2));
        assert(!matches_at(t, 0, t.len() as int, descriptor_words(DescriptorWords::Sus4)[0])) by {
            let w = descriptor_words(DescriptorWords::Sus4)[0];
            assert(w == "sus4"@);
            if matches_at(t, 0, t.len() as int, w) {
                assert(t.subrange(0, w.len() as int)[0] == t[0]);
            }
        }
        assert(!matches_at(t, 0, t.len() as int, descriptor_words(DescriptorWords::Sus4)[1])) by {
            let w = descriptor_words(DescriptorWords::Sus4)[1];
            assert(w == "Sus4"@);
            if matches_at(t, 0, t.len() as int, w) {
                assert(t.subrange(0, w.len() as int)[0] == t[0]);
            }
        }
        assert(!matches_at(t, 0, t.len() as int, descriptor_words(DescriptorWords::Sus4)[2])) by {
            let w = descriptor_words(DescriptorWords::Sus4)[2];
            assert(w == "SUS4"@);
            if matches_at(t, 0, t.len() as int, w) {
                assert(t.subrange(0, w.len() as int)[0] == t[0]);
            }
        }
        assert(!matches_at(t, 0, t.len() as int, descriptor_words(DescriptorWords::Sus4)[3])) by {
            let w = descriptor_words(DescriptorWords::Sus4)[3];
            assert(w == "sus"@);
            if matches_at(t, 0, t.len() as int, w) {
                assert(t.subrange(0, w.len() as int)[0] == t[0]);
            }
        }
        assert(!matches_at(t, 0, t.len() as int, descriptor_words(DescriptorWords::Sus4)[4])) by {
            let w = descriptor_words(DescriptorWords::Sus4)[4];
            assert(w == "Sus"@);
            if matches_at(t, 0, t.len() as int, w) {
                assert(t.subrange(0, w.len() as int)[0] == t[0]);
            }
        }
        assert(!matches_at(t, 0, t.len() as int, descriptor_words(DescriptorWords::Sus4)[5])) by {
            let w = descriptor_words(DescriptorWords::Sus4)[5];
            assert(w == "SUS"@);
            if matches_at(t, 0, t.len() as int, w) {
                assert(t.subrange(0, w.len() as int)[0] == t[0]);
            }
        }
        lemma_first_match_none(t, 0, t.len() as int, descriptor_words(DescriptorWords::Sus4));
        assert(!matches_at(t, 0, t.len() as int, descriptor_words(DescriptorWords::Add13)[0])) by {
            let w = descriptor_words(DescriptorWords::Add13)[0];
            assert(w == "add13"@);
            if matches_at(t, 0, t.len() as int, w) {
                assert(t.subrange(0, w.len() as int)[0] == t[0]);
            }
        }
        lemma_first_match_none(t, 0, t.len() as int, descriptor_words(DescriptorWords::Add13));
        assert(!matches_at(t, 0, t.len() as int, descriptor_words(DescriptorWords::Add11)[0])) by {
            let w = descriptor_words(DescriptorWords::Add11)[0];
            assert(w == "add11"@);
            if matches_at(t, 0, t.len() as int, w) {
                assert(t.subrange(0, w.len() as int)[0] == t[0]);
            }
        }
        assert(!matches_at(t, 0, t.len() as int, descriptor_words(DescriptorWords::Add11)[1])) by {
            let w = descriptor_words(DescriptorWords::Add11)[1];
            assert(w == "add4"@);
            if matches_at(t, 0, t.len() as int, w) {
                assert(t.subrange(0, w.len() as int)[0] == t[0]);
            }
        }
        lemma_first_match_none(t, 0, t.len() as int, descriptor_words(DescriptorWords::Add11));
        assert(!matches_at(t, 0, t.len() as int, descriptor_words(DescriptorWords::Add9)[0])) by {
            let w = descriptor_words(DescriptorWords::Add9)[0];
            assert(w == "add9"@);
            if matches_at(t, 0, t.len() as int, w) {
                assert(t.subrange(0, w.len() as int)[0] == t[0]);
            }
        }
        assert(!matches_at(t, 0, t.len() as int, descriptor_words(DescriptorWords::Add9)[1])) by {
            let w = descriptor_words(DescriptorWords::Add9)[1];
            assert(w == "add2"@);
            if matches_at(t, 0, t.len() as int, w) {
                assert(t.subrange(0, w.len() as int)[0] == t[0]);
            }
        }
        lemma_first_match_none(t, 0, t.len() as int, descriptor_words(DescriptorWords::Add9));
        assert(!matches_at(t, 0, t.len() as int, descriptor_words(DescriptorWords::No5)[0])) by {
            let w = descriptor_words(DescriptorWords::No5)[0];
            assert(w == "omit5"@);
            if matches_at(t, 0, t.len() as int, w) {
                assert(t.subrange(0, w.len() as int)[0] == t[0]);
            }
        }
        assert(!matches_at(t, 0, t.len() as int, descriptor_words(DescriptorWords::No5)[1])) by {
            let w = descriptor_words(DescriptorWords::No5)[1];
            assert(w == "no5"@);
            if matches_at(t, 0, t.len() as int, w) {
                assert(t.subrange(0, w.len() as int)[0] == t[0]);
            }
        }
        lemma_first_match_none(t, 0, t.len() as int, descriptor_words(DescriptorWords::No5));
        assert(!matches_at(t, 0, t.len() as int, descriptor_words(DescriptorWords::No3)[0])) by {
            let w = descriptor_words(DescriptorWords::No3)[0];
            assert(w == "omit3"@);
            if matches_at(t, 0, t.len() as int, w) {
                assert(t.subrange(0, w.len() as int)[0] == t[0]);
            }
        }
        assert(!matches_at(t, 0, t.len() as int, descriptor_words(DescriptorWords::No3)[1])) by {
            let w = descriptor_words(DescriptorWords::No3)[1];
            assert(w == "no3"@);
            if matches_at(t, 0, t.len() as int, w) {
                assert(t.subrange(0, w.len() as int)[0] == t[0]);
            }
        }
        lemma_first_match_none(t, 0, t.len() as int, descriptor_words(DescriptorWords::No3));
        assert(!matches_at(t, 0, t.len() as int, descriptor_words(DescriptorWords::No1)[0])) by {
            let w = descriptor_words(DescriptorWords::No1)[0];
            assert(w == "omit1"@);
            if matches_at(t, 0, t.len() as int, w) {
                assert(t.subrange(0, w.len() as int)[0] == t[0]);
            }
        }
        assert(!matches_at(t, 0, t.len() as int, descriptor_words(DescriptorWords::No1)[1])) by {
            let w = descriptor_words(DescriptorWords::No1)[1];
            assert(w == "no1"@);
            if matches_at(t, 0, t.len() as int, w) {
                assert(t.subrange(0, w.len() as int)[0] == t[0]);
            }
        }
        lemma_first_match_none(t, 0, t.len() as int, descriptor_words(DescriptorWords::No1));
        assert(descriptor_words(DescriptorWords::Thirteen)[0] == "13"@);
        assert(matches_at(t, 0, t.len() as int, descriptor_words(DescriptorWords::Thirteen)[0])) by {
            assert(t.subrange(0, 2) =~= h);
            assert(descriptor_words(DescriptorWords::Thirteen)[0] =~= h);
        }
    } else if spec.extension == Some(Extension::Eleventh) {
        assert(h =~= seq!['1', '1']);
        assert(!matches_at(t, 0, t.len() as int, descriptor_words(DescriptorWords::HalfDiminishedSeventh)[0])) by {
            let w = descriptor_words(DescriptorWords::HalfDiminishedSeventh)[0];
            assert(w == "\u{f8}7"@);
            if matches_at(t, 0, t.len() as int, w) {
                assert(t.subrange(0, w.len() as int)[0] == t[0]);
            }
        }
        assert(!matches_at(t, 0, t.len() as int, descriptor_words(DescriptorWords::HalfDiminishedSeventh)[1])) by {
            let w = descriptor_words(DescriptorWords::HalfDiminishedSeventh)[1];
            assert(w == "\u{d8}7"@);
            if matches_at(t, 0, t.len() as int, w) {
                assert(t.subrange(0, w.len() as int)[0] == t[0]);
            }
        }
        lemma_first_match_none(t, 0, t.len() as int, descriptor_words(DescriptorWords::HalfDiminishedSeventh));
        assert(!matches_at(t, 0, t.len() as int, descriptor_words(DescriptorWords::HalfDiminished)[0])) by {
            let w = descriptor_words(DescriptorWords::HalfDiminished)[0];
            assert(w == "\u{f8}"@);
            if matches_at(t, 0, t.len() as int, w) {
                assert(t.subrange(0, w.len() as int)[0] == t[0]);
            }
        }
        assert(!matches_at(t, 0, t.len() as int, descriptor_words(DescriptorWords::HalfDiminished)[1])) by {
            let w = descriptor_words(DescriptorWords::HalfDiminished)[1];
            assert(w == "\u{d8}"@);
            if matches_at(t, 0, t.len() as int, w) {
                assert(t.subrange(0, w.len() as int)[0] == t[0]);
            }
        }
        lemma_first_match_none(t, 0, t.len() as int, descriptor_words(DescriptorWords::HalfDiminished));
        assert(!matches_at(t, 0, t.len() as int, descriptor_words(DescriptorWords::Alt)[0])) by {
            let w = descriptor_words(DescriptorWords::Alt)[0];
            assert(w == "alt"@);
            if matches_at(t, 0, t.len() as int, w) {
                assert(t.subrange(0, w.len() as int)[0] == t[0]);
            }
        }
        assert(!matches_at(t, 0, t.len() as int, descriptor_words(DescriptorWords::Alt)[1])) by {
            let w = descriptor_words(DescriptorWords::Alt)[1];
            assert(w == "Alt"@);
            if matches_at(t, 0, t.len() as int, w) {
                assert(t.subrange(0, w.len() as int)[0] == t[0]);
            }
        }
        assert(!matches_at(t, 0, t.len() as int, descriptor_words(DescriptorWords::Alt)[2])) by {
            let w = descriptor_words(DescriptorWords::Alt)[2];
            assert(w == "ALT"@);
            if matches_at(t, 0, t.len() as int, w) {
                assert(t.subrange(0, w.len() as int)[0] == t[0]);
            }
        }
        lemma_first_match_none(t, 0, t.len() as int, descriptor_words(DescriptorWords::Alt));
        assert(!matches_at(t, 0, t.len() as int, descriptor_words(DescriptorWords::Major13)[0])) by {
            let w = descriptor_words(DescriptorWords::Major13)[0];
            assert(w == "maj13"@);
            if matches_at(t, 0, t.len() as int, w) {
                assert(t.subrange(0, w.len() as int)[0] == t[0]);
            }
        }
        assert(!matches_at(t, 0, t.len() as int, descriptor_words(DescriptorWords::Major13)[1])) by {
            let w = descriptor_words(DescriptorWords::Major13)[1];
            assert(w == "Maj13"@);
            if matches_at(t, 0, t.len() as int, w) {
                assert(t.subrange(0, w.len() as int)[0] == t[0]);
            }
        }
        assert(!matches_at(t, 0, t.len() as int, descriptor_words(DescriptorWords::Major13)[2])) by {
            let w = descriptor_words(DescriptorWords::Major13)[2];
            assert(w == "MAJ13"@);
            if matches_at(t, 0, t.len() as int, w) {
                assert(t.subrange(0, w.len() as int)[0] == t[0]);
            }
        }
        assert(!matches_at(t, 0, t.len() as int, descriptor_words(DescriptorWords::Major13)[3])) by {
            let w = descriptor_words(DescriptorWords::Major13)[3];
            assert(w == "M13"@);
            if matches_at(t, 0, t.len() as int, w) {
                assert(t.subrange(0, w.len() as int)[0] == t[0]);
            }
        }
        assert(!matches_at(t, 0, t.len() as int, descriptor_words(DescriptorWords::Major13)[4])) by {
            let w = descriptor_words(DescriptorWords::Major13)[4];
            assert(w == "\u{394}13"@);
            if matches_at(t, 0, t.len() as int, w) {
                assert(t.subrange(0, w.len() as int)[0] == t[0]);
            }
        }
        assert(!matches_at(t, 0, t.len() as int, descriptor_words(DescriptorWords::Major13)[5])) by {
            let w = descriptor_words(DescriptorWords::Major13)[5];
            assert(w == "\u{25b3}13"@);
            if matches_at(t, 0, t.len() as int, w) {
                assert(t.subrange(0, w.len() as int)[0] == t[0]);
            }
        }
        lemma_first_match_none(t, 0, t.len() as int, descriptor_words(DescriptorWords::Major13));
        assert(!matches_at(t, 0, t.len() as int, descriptor_words(DescriptorWords::Major11)[0])) by {
            let w = descriptor_words(DescriptorWords::Major11)[0];
            assert(w == "maj11"@);
            if matches_at(t, 0, t.len() as int, w) {
                assert(t.subrange(0, w.len() as int)[0] == t[0]);
            }
        }
        assert(!matches_at(t, 0, t.len() as int, descriptor_words(DescriptorWords::Major11)[1])) by {
            let w = descriptor_words(DescriptorWords::Major11)[1];
            assert(w == "Maj11"@);
            if matches_at(t, 0, t.len() as int, w) {
                assert(t.subrange(0, w.len() as int)[0] == t[0]);
            }
        }
        assert(!matches_at(t, 0, t.len() as int, descriptor_words(DescriptorWords::Major11)[2])) by {
            let w = descriptor_words(DescriptorWords::Major11)[2];
            assert(w == "MAJ11"@);
            if matches_at(t, 0, t.len() as int, w) {
                assert(t.subrange(0, w.len() as int)[0] == t[0]);
            }
        }
        assert(!matches_at(t, 0, t.len() as int, descriptor_words(DescriptorWords::Major11)[3])) by {
            let w = descriptor_words(DescriptorWords::Major11)[3];
            assert(w == "M11"@);
            if matches_at(t, 0, t.len() as int, w) {
                assert(t.subrange(0, w.len() as int)[0] == t[0]);
            }
        }
        assert(!matches_at(t, 0, t.len() as int, descriptor_words(DescriptorWords::Major11)[4])) by {
            let w = descriptor_words(DescriptorWords::Major11)[4];
            assert(w == "\u{394}11"@);
            if matches_at(t, 0, t.len() as int, w) {
                assert(t.subrange(0, w.len() as int)[0] == t[0]);
            }
        }
        assert(!matches_at(t, 0, t.len() as int, descriptor_words(DescriptorWords::Major11)[5])) by {
            let w = descriptor_words(DescriptorWords::Major11)[5];
            assert(w == "\u{25b3}11"@);
            if matches_at(t, 0, t.len() as int, w) {
                assert(t.subrange(0, w.len() as int)[0] == t[0]);
            }
        }
        lemma_first_match_none(t, 0, t.len() as int, descriptor_words(DescriptorWords::Major11));
        assert(!matches_at(t, 0, t.len() as int, descriptor_words(DescriptorWords::Major9)[0])) by {
            let w = descriptor_words(DescriptorWords::Major9)[0];
            assert(w == "maj9"@);
            if matches_at(t, 0, t.len() as int, w) {
                assert(t.subrange(0, w.len() as int)[0] == t[0]);
            }
        }
        assert(!matches_at(t, 0, t.len() as int, descriptor_words(DescriptorWords::Major9)[1])) by {
            let w = descriptor_words(DescriptorWords::Major9)[1];
            assert(w == "Maj9"@);
            if matches_at(t, 0, t.len() as int, w) {
                assert(t.subrange(0, w.len() as int)[0] == t[0]);
            }
        }
        assert(!matches_at(t, 0, t.len() as int, descriptor_words(DescriptorWords::Major9)[2])) by {
            let w = descriptor_words(DescriptorWords::Major9)[2];
            assert(w == "MAJ9"@);
            if matches_at(t, 0, t.len() as int, w) {
                assert(t.subrange(0, w.len() as int)[0] == t[0]);
            }
        }
        assert(!matches_at(t, 0, t.len() as int, descriptor_words(DescriptorWords::Major9)[3])) by {
            let w = descriptor_words(DescriptorWords::Major9)[3];
            assert(w == "M9"@);
            if matches_at(t, 0, t.len() as int, w) {
                assert(t.subrange(0, w.len() as int)[0] == t[0]);
            }
        }
        assert(!matches_at(t, 0, t.len() as int, descriptor_words(DescriptorWords::Major9)[4])) by {
            let w = descriptor_words(DescriptorWords::Major9)[4];
            assert(w == "\u{394}9"@);
            if matches_at(t, 0, t.len() as int, w) {
                assert(t.subrange(0, w.len() as int)[0] == t[0]);
            }
        }
        assert(!matches_at(t, 0, t.len() as int, descriptor_words(DescriptorWords::Major9)[5])) by {
            let w = descriptor_words(DescriptorWords::Major9)[5];
            assert(w == "\u{25b3}9"@);
            if matches_at(t, 0, t.len() as int, w) {
                assert(t.subrange(0, w.len() as int)[0] == t[0]);
            }
        }
        lemma_first_match_none(t, 0, t.len() as int, descriptor_words(DescriptorWords::Major9));
        assert(!matches_at(t, 0, t.len() as int, descriptor_words(DescriptorWords::Major7)[0])) by {
            let w = descriptor_words(DescriptorWords::Major7)[0];
            assert(w == "maj7"@);
            if matches_at(t, 0, t.len() as int, w) {
                assert(t.subrange(0, w.len() as int)[0] == t[0]);
            }
        }
        assert(!matches_at(t, 0, t.len() as int, descriptor_words(DescriptorWords::Major7)[1])) by {
            let w = descriptor_words(DescriptorWords::Major7)[1];
            assert(w == "Maj7"@);
            if matches_at(t, 0, t.len() as int, w) {
                assert(t.subrange(0, w.len() as int)[0] == t[0]);
            }
        }
        assert(!matches_at(t, 0, t.len() as int, descriptor_words(DescriptorWords::Major7)[2])) by {
            let w = descriptor_words(DescriptorWords::Major7)[2];
            assert(w == "MAJ7"@);
            if matches_at(t, 0, t.len() as int, w) {
                assert(t.subrange(0, w.len() as int)[0] == t[0]);
            }
        }
        assert(!matches_at(t, 0, t.len() as int, descriptor_words(DescriptorWords::Major7)[3])) by {
            let w = descriptor_words(DescriptorWords::Major7)[3];
            assert(w == "M7"@);
            if matches_at(t, 0, t.len() as int, w) {
                assert(t.subrange(0, w.len() as int)[0] == t[0]);
            }
        }
        assert(!matches_at(t, 0, t.len() as int, descriptor_words(DescriptorWords::Major7)[4])) by {
            let w = descriptor_words(DescriptorWords::Major7)[4];
            assert(w == "\u{394}7"@);
            if matches_at(t, 0, t.len() as int, w) {
                assert(t.subrange(0, w.len() as int)[0] == t[0]);
            }
        }
        assert(!matches_at(t, 0, t.len() as int, descriptor_words(DescriptorWords::Major7)[5])) by {
            let w = descriptor_words(DescriptorWords::Major7)[5];
            assert(w == "\u{25b3}7"@);
            if matches_at(t, 0, t.len() as int, w) {
                assert(t.subrange(0, w.len() as int)[0] == t[0]);
            }
        }
        assert(!matches_at(t, 0, t.len() as int, descriptor_words(DescriptorWords::Major7)[6])) by {
            let w = descriptor_words(DescriptorWords::Major7)[6];
            assert(w == "\u{394}"@);
            if matches_at(t, 0, t.len() as int, w) {
                assert(t.subrange(0, w.len() as int)[0] == t[0]);
            }
        }
        assert(!matches_at(t, 0, t.len() as int, descriptor_words(DescriptorWords::Major7)[7])) by {
            let w = descriptor_words(DescriptorWords::Major7)[7];
            assert(w == "\u{25b3}"@);
            if matches_at(t, 0, t.len() as int, w) {
                assert(t.subrange(0, w.len() as int)[0] == t[0]);
            }
        }
        lemma_first_match_none(t, 0, t.len() as int, descriptor_words(DescriptorWords::Major7));
        assert(!matches_at(t, 0, t.len() as int, descriptor_words(DescriptorWords::Sus2)[0])) by {
            let w = descriptor_words(DescriptorWords::Sus2)[0];
            assert(w == "sus2"@);
            if matches_at(t, 0, t.len() as int, w) {
                assert(t.subrange(0, w.len() as int)[0] == t[0]);
            }
        }
        assert(!matches_at(t, 0, t.len() as int, descriptor_words(DescriptorWords::Sus2)[1])) by {
            let w = descriptor_words(DescriptorWords::Sus2)[1];
            assert(w == "Sus2"@);
            if matches_at(t, 0, t.len() as int, w) {
                assert(t.subrange(0, w.len() as int)[0] == t[0]);
            }
        }
        assert(!matches_at(t, 0, t.len() as int, descriptor_words(DescriptorWords::Sus2)[2])) by {
            let w = descriptor_words(DescriptorWords::Sus2)[2];
            assert(w == "SUS2"@);
            if matches_at(t, 0, t.len() as int, w) {
                assert(t.subrange(0, w.len() as int)[0] == t[0]);
            }
        }
        lemma_first_match_none(t, 0, t.len() as int, descriptor_words(DescriptorWords::Sus2));
        assert(!matches_at(t, 0, t.len() as int, descriptor_words(DescriptorWords::Sus4)[0])) by {
            let w = descriptor_words(DescriptorWords::Sus4)[0];
            assert(w == "sus4"@);
            if matches_at(t, 0, t.len() as int, w) {
                assert(t.subrange(0, w.len() as int)[0] == t[0]);
            }
        }
        assert(!matches_at(t, 0, t.len() as int, descriptor_words(DescriptorWords::Sus4)[1])) by {
            let w = descriptor_words(DescriptorWords::Sus4)[1];
            assert(w == "Sus4"@);
            if matches_at(t, 0, t.len() as int, w) {
                assert(t.subrange(0, w.len() as int)[0] == t[0]);
            }
        }
        assert(!matches_at(t, 0, t.len() as int, descriptor_words(DescriptorWords::Sus4)[2])) by {
            let w = descriptor_words(DescriptorWords::Sus4)[2];
            assert(w == "SUS4"@);
            if matches_at(t, 0, t.len() as int, w) {
                assert(t.subrange(0, w.len() as int)[0] == t[0]);
            }
        }
        assert(!matches_at(t, 0, t.len() as int, descriptor_words(DescriptorWords::Sus4)[3])) by {
            let w = descriptor_words(DescriptorWords::Sus4)[3];
            assert(w == "sus"@);
            if matches_at(t, 0, t.len() as int, w) {
                assert(t.subrange(0, w.len() as int)[0] == t[0]);
            }
        }
        assert(!matches_at(t, 0, t.len() as int, descriptor_words(DescriptorWords::Sus4)[4])) by {
            let w = descriptor_words(DescriptorWords::Sus4)[4];
            assert(w == "Sus"@);
            if matches_at(t, 0, t.len() as int, w) {
                assert(t.subrange(0, w.len() as int)[0] == t[0]);
            }
        }
        assert(!matches_at(t, 0, t.len() as int, descriptor_words(DescriptorWords::Sus4)[5])) by {
            let w = descriptor_words(DescriptorWords::Sus4)[5];
            assert(w == "SUS"@);
            if matches_at(t, 0, t.len() as int, w) {
                assert(t.subrange(0, w.len() as int)[0] == t[0]);
            }
        }
        lemma_first_match_none(t, 0, t.len() as int, descriptor_words(DescriptorWords::Sus4));
        assert(!matches_at(t, 0, t.len() as int, descriptor_words(DescriptorWords::Add13)[0])) by {
            let w = descriptor_words(DescriptorWords::Add13)[0];
            assert(w == "add13"@);
            if matches_at(t, 0, t.len() as int, w) {
                assert(t.subrange(0, w.len() as int)[0] == t[0]);
            }
        }
        lemma_first_match_none(t, 0, t.len() as int, descriptor_words(DescriptorWords::Add13));
        assert(!matches_at(t, 0, t.len() as int, descriptor_words(DescriptorWords::Add11)[0])) by {
            let w = descriptor_words(DescriptorWords::Add11)[0];
            assert(w == "add11"@);
            if matches_at(t, 0, t.len() as int, w) {
                assert(t.subrange(0, w.len() as int)[0] == t[0]);
            }
        }
        assert(!matches_at(t, 0, t.len() as int, descriptor_words(DescriptorWords::Add11)[1])) by {
            let w = descriptor_words(DescriptorWords::Add11)[1];
            assert(w == "add4"@);
            if matches_at(t, 0, t.len() as int, w) {
                assert(t.subrange(0, w.len() as int)[0] == t[0]);
            }
        }
        lemma_first_match_none(t, 0, t.len() as int, descriptor_words(DescriptorWords::Add11));
        assert(!matches_at(t, 0, t.len() as int, descriptor_words(DescriptorWords::Add9)[0])) by {
            let w = descriptor_words(DescriptorWords::Add9)[0];
            assert(w == "add9"@);
            if matches_at(t, 0, t.len() as int, w) {
                assert(t.subrange(0, w.len() as int)[0] == t[0]);
            }
        }
        assert(!matches_at(t, 0, t.len() as int, descriptor_words(DescriptorWords::Add9)[1])) by {
            let w = descriptor_words(DescriptorWords::Add9)[1];
            assert(w == "add2"@);
            if matches_at(t, 0, t.len() as int, w) {
                assert(t.subrange(0, w.len() as int)[0] == t[0]);
            }
        }
        lemma_first_match_none(t, 0, t.len() as int, descriptor_words(DescriptorWords::Add9));
        assert(!matches_at(t, 0, t.len() as int, descriptor_words(DescriptorWords::No5)[0])) by {
            let w = descriptor_words(DescriptorWords::No5)[0];
            assert(w == "omit5"@);
            if matches_at(t, 0, t.len() as int, w) {
                assert(t.subrange(0, w.len() as int)[0] == t[0]);
            }
        }
        assert(!matches_at(t, 0, t.len() as int, descriptor_words(DescriptorWords::No5)[1])) by {
            let w = descriptor_words(DescriptorWords::No5)[1];
            assert(w == "no5"@);
            if matches_at(t, 0, t.len() as int, w) {
                assert(t.subrange(0, w.len() as int)[0] == t[0]);
            }
        }
        lemma_first_match_none(t, 0, t.len() as int, descriptor_words(DescriptorWords::No5));
        assert(!matches_at(t, 0, t.len() as int, descriptor_words(DescriptorWords::No3)[0])) by {
            let w = descriptor_words(DescriptorWords::No3)[0];
            assert(w == "omit3"@);
            if matches_at(t, 0, t.len() as int, w) {
                assert(t.subrange(0, w.len() as int)[0] == t[0]);
            }
        }
        assert(!matches_at(t, 0, t.len() as int, descriptor_words(DescriptorWords::No3)[1])) by {
            let w = descriptor_words(DescriptorWords::No3)[1];
            assert(w == "no3"@);
            if matches_at(t, 0, t.len() as int, w) {
                assert(t.subrange(0, w.len() as int)[0] == t[0]);
            }
        }
        lemma_first_match_none(t, 0, t.len() as int, descriptor_words(DescriptorWords::No3));
        assert(!matches_at(t, 0, t.len() as int, descriptor_words(DescriptorWords::No1)[0])) by {
            let w = descriptor_words(DescriptorWords::No1)[0];
            assert(w == "omit1"@);
            if matches_at(t, 0, t.len() as int, w) {
                assert(t.subrange(0, w.len() as int)[0] == t[0]);
            }
        }
        assert(!matches_at(t, 0, t.len() as int, descriptor_words(DescriptorWords::No1)[1])) by {
            let w = descriptor_words(DescriptorWords::No1)[1];
            assert(w == "no1"@);
            if matches_at(t, 0, t.len() as int, w) {
                assert(t.subrange(0, w.len() as int)[0] == t[0]);
            }
        }
        lemma_first_match_none(t, 0, t.len() as int, descriptor_words(DescriptorWords::No1));
        assert(!matches_at(t, 0, t.len() as int, descriptor_words(DescriptorWords::Thirteen)[0])) by {
            let w = descriptor_words(DescriptorWords::Thirteen)[0];
            assert(w == "13"@);
            if matches_at(t, 0, t.len() as int, w) {
                assert(t.subrange(0, w.len() as int)[1] == t[1]);
            }
        }
        lemma_first_match_none(t, 0, t.len() as int, descriptor_words(DescriptorWords::Thirteen));
        assert(descriptor_words(DescriptorWords::Eleven)[0] == "11"@);
        assert(matches_at(t, 0, t.len() as int, descriptor_words(DescriptorWords::Eleven)[0])) by {
            assert(t.subrange(0, 2) =~= h);
            assert(descriptor_words(DescriptorWords::Eleven)[0] =~= h);
        }
    } else if spec.extension == Some(Extension::Ninth) {
        assert(h =~= seq!['9']);
        assert(!matches_at(t, 0, t.len() as int, descriptor_words(DescriptorWords::HalfDiminishedSeventh)[0])) by {
            let w = descriptor_words(DescriptorWords::HalfDiminishedSeventh)[0];
            assert(w == "\u{f8}7"@);
            if matches_at(t, 0, t.len() as int, w) {
                assert(t.subrange(0, w.len() as int)[0] == t[0]);
            }
        }
        assert(!matches_at(t, 0, t.len() as int, descriptor_words(DescriptorWords::HalfDiminishedSeventh)[1])) by {
            let w = descriptor_words(DescriptorWords::HalfDiminishedSeventh)[1];
            assert(w == "\u{d8}7"@);
            if matches_at(t, 0, t.len() as int, w) {
                assert(t.subrange(0, w.len() as int)[0] == t[0]);
            }
        }
        lemma_first_match_none(t, 0, t.len() as int, descriptor_words(DescriptorWords::HalfDiminishedSeventh));
        assert(!matches_at(t, 0, t.len() as int, descriptor_words(DescriptorWords::HalfDiminished)[0])) by {
            let w = descriptor_words(DescriptorWords::HalfDiminished)[0];
            assert(w == "\u{f8}"@);
            if matches_at(t, 0, t.len() as int, w) {
                assert(t.subrange(0, w.len() as int)[0] == t[0]);
            }
        }
        assert(!matches_at(t, 0, t.len() as int, descriptor_words(DescriptorWords::HalfDiminished)[1])) by {
            let w = descriptor_words(DescriptorWords::HalfDiminished)[1];
            assert(w == "\u{d8}"@);
            if matches_at(t, 0, t.len() as int, w) {
                assert(t.subrange(0, w.len() as int)[0] == t[0]);
            }
        }
        lemma_first_match_none(t, 0, t.len() as int, descriptor_words(DescriptorWords::HalfDiminished));
        assert(!matches_at(t, 0, t.len() as int, descriptor_words(DescriptorWords::Alt)[0])) by {
            let w = descriptor_words(DescriptorWords::Alt)[0];
            assert(w == "alt"@);
            if matches_at(t, 0, t.len() as int, w) {
                assert(t.subrange(0, w.len() as int)[0] == t[0]);
            }
        }
        assert(!matches_at(t, 0, t.len() as int, descriptor_words(DescriptorWords::Alt)[1])) by {
            let w = descriptor_words(DescriptorWords::Alt)[1];
            assert(w == "Alt"@);
            if matches_at(t, 0, t.len() as int, w) {
                assert(t.subrange(0, w.len() as int)[0] == t[0]);
            }
        }
        assert(!matches_at(t, 0, t.len() as int, descriptor_words(DescriptorWords::Alt)[2])) by {
            let w = descriptor_words(DescriptorWords::Alt)[2];
            assert(w == "ALT"@);
            if matches_at(t, 0, t.len() as int, w) {
                assert(t.subrange(0, w.len() as int)[0] == t[0]);
            }
        }
        lemma_first_match_none(t, 0, t.len() as int, descriptor_words(DescriptorWords::Alt));
        assert(!matches_at(t, 0, t.len() as int, descriptor_words(DescriptorWords::Major13)[0])) by {
            let w = descriptor_words(DescriptorWords::Major13)[0];
            assert(w == "maj13"@);
            if matches_at(t, 0, t.len() as int, w) {
                assert(t.subrange(0, w.len() as int)[0] == t[0]);
            }
        }
        assert(!matches_at(t, 0, t.len() as int, descriptor_words(DescriptorWords::Major13)[1])) by {
            let w = descriptor_words(DescriptorWords::Major13)[1];
            assert(w == "Maj13"@);
            if matches_at(t, 0, t.len() as int, w) {
                assert(t.subrange(0, w.len() as int)[0] == t[0]);
            }
        }
        assert(!matches_at(t, 0, t.len() as int, descriptor_words(DescriptorWords::Major13)[2])) by {
            let w = descriptor_words(DescriptorWords::Major13)[2];
            assert(w == "MAJ13"@);
            if matches_at(t, 0, t.len() as int, w) {
                assert(t.subrange(0, w.len() as int)[0] == t[0]);
            }
        }
        assert(!matches_at(t, 0, t.len() as int, descriptor_words(DescriptorWords::Major13)[3])) by {
            let w = descriptor_words(DescriptorWords::Major13)[3];
            assert(w == "M13"@);
            if matches_at(t, 0, t.len() as int, w) {
                assert(t.subrange(0, w.len() as int)[0] == t[0]);
            }
        }
        assert(!matches_at(t, 0, t.len() as int, descriptor_words(DescriptorWords::Major13)[4])) by {
            let w = descriptor_words(DescriptorWords::Major13)[4];
            assert(w == "\u{394}13"@);
            if matches_at(t, 0, t.len() as int, w) {
                assert(t.subrange(0, w.len() as int)[0] == t[0]);
            }
        }
        assert(!matches_at(t, 0, t.len() as int, descriptor_words(DescriptorWords::Major13)[5])) by {
            let w = descriptor_words(DescriptorWords::Major13)[5];
            assert(w == "\u{25b3}13"@);
            if matches_at(t, 0, t.len() as int, w) {
                assert(t.subrange(0, w.len() as int)[0] == t[0]);
            }
        }
        lemma_first_match_none(t, 0, t.len() as int, descriptor_words(DescriptorWords::Major13));
        assert(!matches_at(t, 0, t.len() as int, descriptor_words(DescriptorWords::Major11)[0])) by {
            let w = descriptor_words(DescriptorWords::Major11)[0];
            assert(w == "maj11"@);
            if matches_at(t, 0, t.len() as int, w) {
                assert(t.subrange(0, w.len() as int)[0] == t[0]);
            }
        }
        assert(!matches_at(t, 0, t.len() as int, descriptor_words(DescriptorWords::Major11)[1])) by {
            let w = descriptor_words(DescriptorWords::Major11)[1];
            assert(w == "Maj11"@);
            if matches_at(t, 0, t.len() as int, w) {
                assert(t.subrange(0, w.len() as int)[0] == t[0]);
            }
        }
        assert(!matches_at(t, 0, t.len() as int, descriptor_words(DescriptorWords::Major11)[2])) by {
            let w = descriptor_words(DescriptorWords::Major11)[2];
            assert(w == "MAJ11"@);
            if matches_at(t, 0, t.len() as int, w) {
                assert(t.subrange(0, w.len() as int)[0] == t[0]);
            }
        }
        assert(!matches_at(t, 0, t.len() as int, descriptor_words(DescriptorWords::Major11)[3])) by {
            let w = descriptor_words(DescriptorWords::Major11)[3];
            assert(w == "M11"@);
            if matches_at(t, 0, t.len() as int, w) {
                assert(t.subrange(0, w.len() as int)[0] == t[0]);
            }
        }
        assert(!matches_at(t, 0, t.len() as int, descriptor_words(DescriptorWords::Major11)[4])) by {
            let w = descriptor_words(DescriptorWords::Major11)[4];
            assert(w == "\u{394}11"@);
            if matches_at(t, 0, t.len() as int, w) {
                assert(t.subrange(0, w.len() as int)[0] == t[0]);
            }
        }
        assert(!matches_at(t, 0, t.len() as int, descriptor_words(DescriptorWords::Major11)[5])) by {
            let w = descriptor_words(DescriptorWords::Major11)[5];
            assert(w == "\u{25b3}11"@);
            if matches_at(t, 0, t.len() as int, w) {
                assert(t.subrange(0, w.len() as int)[0] == t[0]);
            }
        }
        lemma_first_match_none(t, 0, t.len() as int, descriptor_words(DescriptorWords::Major11));
        assert(!matches_at(t, 0, t.len() as int, descriptor_words(DescriptorWords::Major9)[0])) by {
            let w = descriptor_words(DescriptorWords::Major9)[0];
            assert(w == "maj9"@);
            if matches_at(t, 0, t.len() as int, w) {
                assert(t.subrange(0, w.len() as int)[0] == t[0]);
            }
        }
        assert(!matches_at(t, 0, t.len() as int, descriptor_words(DescriptorWords::Major9)[1])) by {
            let w = descriptor_words(DescriptorWords::Major9)[1];
            assert(w == "Maj9"@);
            if matches_at(t, 0, t.len() as int, w) {
                assert(t.subrange(0, w.len() as int)[0] == t[0]);
            }
        }
        assert(!matches_at(t, 0, t.len() as int, descriptor_words(DescriptorWords::Major9)[2])) by {
            let w = descriptor_words(DescriptorWords::Major9)[2];
            assert(w == "MAJ9"@);
            if matches_at(t, 0, t.len() as int, w) {
                assert(t.subrange(0, w.len() as int)[0] == t[0]);
            }
        }
        assert(!matches_at(t, 0, t.len() as int, descriptor_words(DescriptorWords::Major9)[3])) by {
            let w = descriptor_words(DescriptorWords::Major9)[3];
            assert(w == "M9"@);
            if matches_at(t, 0, t.len() as int, w) {
                assert(t.subrange(0, w.len() as int)[0] == t[0]);
            }
        }
        assert(!matches_at(t, 0, t.len() as int, descriptor_words(DescriptorWords::Major9)[4])) by {
            let w = descriptor_words(DescriptorWords::Major9)[4];
            assert(w == "\u{394}9"@);
            if matches_at(t, 0, t.len() as int, w) {
                assert(t.subrange(0, w.len() as int)[0] == t[0]);
            }
        }
        assert(!matches_at(t, 0, t.len() as int, descriptor_words(DescriptorWords::Major9)[5])) by {
            let w = descriptor_words(DescriptorWords::Major9)[5];
            assert(w == "\u{25b3}9"@);
            if matches_at(t, 0, t.len() as int, w) {
                assert(t.subrange(0, w.len() as int)[0] == t[0]);
            }
        }
        lemma_first_match_none(t, 0, t.len() as int, descriptor_words(DescriptorWords::Major9));
        assert(!matches_at(t, 0, t.len() as int, descriptor_words(DescriptorWords::Major7)[0])) by {
            let w = descriptor_words(DescriptorWords::Major7)[0];
            assert(w == "maj7"@);
            if matches_at(t, 0, t.len() as int, w) {
                assert(t.subrange(0, w.len() as int)[0] == t[0]);
            }
        }
        assert(!matches_at(t, 0, t.len() as int, descriptor_words(DescriptorWords::Major7)[1])) by {
            let w = descriptor_words(DescriptorWords::Major7)[1];
            assert(w == "Maj7"@);
            if matches_at(t, 0, t.len() as int, w) {
                assert(t.subrange(0, w.len() as int)[0] == t[0]);
            }
        }
        assert(!matches_at(t, 0, t.len() as int, descriptor_words(DescriptorWords::Major7)[2])) by {
            let w = descriptor_words(DescriptorWords::Major7)[2];
            assert(w == "MAJ7"@);
            if matches_at(t, 0, t.len() as int, w) {
                assert(t.subrange(0, w.len() as int)[0] == t[0]);
            }
        }
        assert(!matches_at(t, 0, t.len() as int, descriptor_words(DescriptorWords::Major7)[3])) by {
            let w = descriptor_words(DescriptorWords::Major7)[3];
            assert(w == "M7"@);
            if matches_at(t, 0, t.len() as int, w) {
                assert(t.subrange(0, w.len() as int)[0] == t[0]);
            }
        }
        assert(!matches_at(t, 0, t.len() as int, descriptor_words(DescriptorWords::Major7)[4])) by {
            let w = descriptor_words(DescriptorWords::Major7)[4];
            assert(w == "\u{394}7"@);
            if matches_at(t, 0, t.len() as int, w) {
                assert(t.subrange(0, w.len() as int)[0] == t[0]);
            }
        }
        assert(!matches_at(t, 0, t.len() as int, descriptor_words(DescriptorWords::Major7)[5])) by {
            let w = descriptor_words(DescriptorWords::Major7)[5];
            assert(w == "\u{25b3}7"@);
            if matches_at(t, 0, t.len() as int, w) {
                assert(t.subrange(0, w.len() as int)[0] == t[0]);
            }
        }
        assert(!matches_at(t, 0, t.len() as int, descriptor_words(DescriptorWords::Major7)[6])) by {
            let w = descriptor_words(DescriptorWords::Major7)[6];
            assert(w == "\u{394}"@);
            if matches_at(t, 0, t.len() as int, w) {
                assert(t.subrange(0, w.len() as int)[0] == t[0]);
            }
        }
        assert(!matches_at(t, 0, t.len() as int, descriptor_words(DescriptorWords::Major7)[7])) by {
            let w = descriptor_words(DescriptorWords::Major7)[7];
            assert(w == "\u{25b3}"@);
            if matches_at(t, 0, t.len() as int, w) {
                assert(t.subrange(0, w.len() as int)[0] == t[0]);
            }
        }
        lemma_first_match_none(t, 0, t.len() as int, descriptor_words(DescriptorWords::Major7));
        assert(!matches_at(t, 0, t.len() as int, descriptor_words(DescriptorWords::Sus2)[0])) by {
            let w = descriptor_words(DescriptorWords::Sus2)[0];
            assert(w == "sus2"@);
            if matches_at(t, 0, t.len() as int, w) {
                assert(t.subrange(0, w.len() as int)[0] == t[0]);
            }
        }
        assert(!matches_at(t, 0, t.len() as int, descriptor_words(DescriptorWords::Sus2)[1])) by {
            let w = descriptor_words(DescriptorWords::Sus2)[1];
            assert(w == "Sus2"@);
            if matches_at(t, 0, t.len() as int, w) {
                assert(t.subrange(0, w.len() as int)[0] == t[0]);
            }
        }
        assert(!matches_at(t, 0, t.len() as int, descriptor_words(DescriptorWords::Sus2)[2])) by {
            let w = descriptor_words(DescriptorWords::Sus2)[2];
            assert(w == "SUS2"@);
            if matches_at(t, 0, t.len() as int, w) {
                assert(t.subrange(0, w.len() as int)[0] == t[0]);
            }
        }
        lemma_first_match_none(t, 0, t.len() as int, descriptor_words(DescriptorWords::Sus2));
        assert(!matches_at(t, 0, t.len() as int, descriptor_words(DescriptorWords::Sus4)[0])) by {
            let w = descriptor_words(DescriptorWords::Sus4)[0];
            assert(w == "sus4"@);
            if matches_at(t, 0, t.len() as int, w) {
                assert(t.subrange(0, w.len() as int)[0] == t[0]);
            }
        }
        assert(!matches_at(t, 0, t.len() as int, descriptor_words(DescriptorWords::Sus4)[1])) by {
            let w = descriptor_words(DescriptorWords::Sus4)[1];
            assert(w == "Sus4"@);
            if matches_at(t, 0, t.len() as int, w) {
                assert(t.subrange(0, w.len() as int)[0] == t[0]);
            }
        }
        assert(!matches_at(t, 0, t.len() as int, descriptor_words(DescriptorWords::Sus4)[2])) by {
            let w = descriptor_words(DescriptorWords::Sus4)[2];
            assert(w == "SUS4"@);
            if matches_at(t, 0, t.len() as int, w) {
                assert(t.subrange(0, w.len() as int)[0] == t[0]);
            }
        }
        assert(!matches_at(t, 0, t.len() as int, descriptor_words(DescriptorWords::Sus4)[3])) by {
            let w = descriptor_words(DescriptorWords::Sus4)[3];
            assert(w == "sus"@);
            if matches_at(t, 0, t.len() as int, w) {
                assert(t.subrange(0, w.len() as int)[0] == t[0]);
            }
        }
        assert(!matches_at(t, 0, t.len() as int, descriptor_words(DescriptorWords::Sus4)[4])) by {
            let w = descriptor_words(DescriptorWords::Sus4)[4];
            assert(w == "Sus"@);
            if matches_at(t, 0, t.len() as int, w) {
                assert(t.subrange(0, w.len() as int)[0] == t[0]);
            }
        }
        assert(!matches_at(t, 0, t.len() as int, descriptor_words(DescriptorWords::Sus4)[5])) by {
            let w = descriptor_words(DescriptorWords::Sus4)[5];
            assert(w == "SUS"@);
            if matches_at(t, 0, t.len() as int, w) {
                assert(t.subrange(0, w.len() as int)[0] == t[0]);
            }
        }
        lemma_first_match_none(t, 0, t.len() as int, descriptor_words(DescriptorWords::Sus4));
        assert(!matches_at(t, 0, t.len() as int, descriptor_words(DescriptorWords::Add13)[0])) by {
            let w = descriptor_words(DescriptorWords::Add13)[0];
            assert(w == "add13"@);
            if matches_at(t, 0, t.len() as int, w) {
                assert(t.subrange(0, w.len() as int)[0] == t[0]);
            }
        }
        lemma_first_match_none(t, 0, t.len() as int, descriptor_words(DescriptorWords::Add13));
        assert(!matches_at(t, 0, t.len() as int, descriptor_words(DescriptorWords::Add11)[0])) by {
            let w = descriptor_words(DescriptorWords::Add11)[0];
            assert(w == "add11"@);
            if matches_at(t, 0, t.len() as int, w) {
                assert(t.subrange(0, w.len() as int)[0] == t[0]);
            }
        }
        assert(!matches_at(t, 0, t.len() as int, descriptor_words(DescriptorWords::Add11)[1])) by {
            let w = descriptor_words(DescriptorWords::Add11)[1];
            assert(w == "add4"@);
            if matches_at(t, 0, t.len() as int, w) {
                assert(t.subrange(0, w.len() as int)[0] == t[0]);
            }
        }
        lemma_first_match_none(t, 0, t.len() as int, descriptor_words(DescriptorWords::Add11));
        assert(!matches_at(t, 0, t.len() as int, descriptor_words(DescriptorWords::Add9)[0])) by {
            let w = descriptor_words(DescriptorWords::Add9)[0];
            assert(w == "add9"@);
            if matches_at(t, 0, t.len() as int, w) {
                assert(t.subrange(0, w.len() as int)[0] == t[0]);
            }
        }
        assert(!matches_at(t, 0, t.len() as int, descriptor_words(DescriptorWords::Add9)[1])) by {
            let w = descriptor_words(DescriptorWords::Add9)[1];
            assert(w == "add2"@);
            if matches_at(t, 0, t.len() as int, w) {
                assert(t.subrange(0, w.len() as int)[0] == t[0]);
            }
        }
        lemma_first_match_none(t, 0, t.len() as int, descriptor_words(DescriptorWords::Add9));
        assert(!matches_at(t, 0, t.len() as int, descriptor_words(DescriptorWords::No5)[0])) by {
            let w = descriptor_words(DescriptorWords::No5)[0];
            assert(w == "omit5"@);
            if matches_at(t, 0, t.len() as int, w) {
                assert(t.subrange(0, w.len() as int)[0] == t[0]);
            }
        }
        assert(!matches_at(t, 0, t.len() as int, descriptor_words(DescriptorWords::No5)[1])) by {
            let w = descriptor_words(DescriptorWords::No5)[1];
            assert(w == "no5"@);
            if matches_at(t, 0, t.len() as int, w) {
                assert(t.subrange(0, w.len() as int)[0] == t[0]);
            }
        }
        lemma_first_match_none(t, 0, t.len() as int, descriptor_words(DescriptorWords::No5));
        assert(!matches_at(t, 0, t.len() as int, descriptor_words(DescriptorWords::No3)[0])) by {
            let w = descriptor_words(DescriptorWords::No3)[0];
            assert(w == "omit3"@);
            if matches_at(t, 0, t.len() as int, w) {
                assert(t.subrange(0, w.len() as int)[0] == t[0]);
            }
        }
        assert(!matches_at(t, 0, t.len() as int, descriptor_words(DescriptorWords::No3)[1])) by {
            let w = descriptor_words(DescriptorWords::No3)[1];
            assert(w == "no3"@);
            if matches_at(t, 0, t.len() as int, w) {
                assert(t.subrange(0, w.len() as int)[0] == t[0]);
            }
        }
        lemma_first_match_none(t, 0, t.len() as int, descriptor_words(DescriptorWords::No3));
        assert(!matches_at(t, 0, t.len() as int, descriptor_words(DescriptorWords::No1)[0])) by {
            let w = descriptor_words(DescriptorWords::No1)[0];
            assert(w == "omit1"@);
            if matches_at(t, 0, t.len() as int, w) {
                assert(t.subrange(0, w.len() as int)[0] == t[0]);
            }
        }
        assert(!matches_at(t, 0, t.len() as int, descriptor_words(DescriptorWords::No1)[1])) by {
            let w = descriptor_words(DescriptorWords::No1)[1];
            assert(w == "no1"@);
            if matches_at(t, 0, t.len() as int, w) {
                assert(t.subrange(0, w.len() as int)[0] == t[0]);
            }
        }
        lemma_first_match_none(t, 0, t.len() as int, descriptor_words(DescriptorWords::No1));
        assert(!matches_at(t, 0, t.len() as int, descriptor_words(DescriptorWords::Thirteen)[0])) by {
            let w = descriptor_words(DescriptorWords::Thirteen)[0];
            assert(w == "13"@);
            if matches_at(t, 0, t.len() as int, w) {
                assert(t.subrange(0, w.len() as int)[0] == t[0]);
            }
        }
        lemma_first_match_none(t, 0, t.len() as int, descriptor_words(DescriptorWords::Thirteen));
        assert(!matches_at(t, 0, t.len() as int, descriptor_words(DescriptorWords::Eleven)[0])) by {
            let w = descriptor_words(DescriptorWords::Eleven)[0];
            assert(w == "11"@);
            if matches_at(t, 0, t.len() as int, w) {
                assert(t.subrange(0, w.len() as int)[0] == t[0]);
            }
        }
        lemma_first_match_none(t, 0, t.len() as int, descriptor_words(DescriptorWords::Eleven));
        assert(descriptor_words(DescriptorWords::Nine)[0] == "9"@);
        assert(matches_at(t, 0, t.len() as int, descriptor_words(DescriptorWords::Nine)[0])) by {
            assert(t.subrange(0, 1) =~= h);
            assert(descriptor_words(DescriptorWords::Nine)[0] =~= h);
        }
    } else {
        assert(h =~= seq!['7']);
        assert(!matches_at(t, 0, t.len() as int, descriptor_words(DescriptorWords::HalfDiminishedSeventh)[0])) by {
            let w = descriptor_words(DescriptorWords::HalfDiminishedSeventh)[0];
            assert(w == "\u{f8}7"@);
            if matches_at(t, 0, t.len() as int, w) {
                assert(t.subrange(0, w.len() as int)[0] == t[0]);
            }
        }
        assert(!matches_at(t, 0, t.len() as int, descriptor_words(DescriptorWords::HalfDiminishedSeventh)[1])) by {
            let w = descriptor_words(DescriptorWords::HalfDiminishedSeventh)[1];
            assert(w == "\u{d8}7"@);
            if matches_at(t, 0, t.len() as int, w) {
                assert(t.subrange(0, w.len() as int)[0] == t[0]);
            }
        }
        lemma_first_match_none(t, 0, t.len() as int, descriptor_words(DescriptorWords::HalfDiminishedSeventh));
        assert(!matches_at(t, 0, t.len() as int, descriptor_words(DescriptorWords::HalfDiminished)[0])) by {
            let w = descriptor_words(DescriptorWords::HalfDiminished)[0];
            assert(w == "\u{f8}"@);
            if matches_at(t, 0, t.len() as int, w) {
                assert(t.subrange(0, w.len() as int)[0] == t[0]);
            }
        }
        assert(!matches_at(t, 0, t.len() as int, descriptor_words(DescriptorWords::HalfDiminished)[1])) by {
            let w = descriptor_words(DescriptorWords::HalfDiminished)[1];
            assert(w == "\u{d8}"@);
            if matches_at(t, 0, t.len() as int, w) {
                assert(t.subrange(0, w.len() as int)[0] == t[0]);
            }
        }
        lemma_first_match_none(t, 0, t.len() as int, descriptor_words(DescriptorWords::HalfDiminished));
        assert(!matches_at(t, 0, t.len() as int, descriptor_words(DescriptorWords::Alt)[0])) by {
            let w = descriptor_words(DescriptorWords::Alt)[0];
            assert(w == "alt"@);
            if matches_at(t, 0, t.len() as int, w) {
                assert(t.subrange(0, w.len() as int)[0] == t[0]);
            }
        }
        assert(!matches_at(t, 0, t.len() as int, descriptor_words(DescriptorWords::Alt)[1])) by {
            let w = descriptor_words(DescriptorWords::Alt)[1];
            assert(w == "Alt"@);
            if matches_at(t, 0, t.len() as int, w) {
                assert(t.subrange(0, w.len() as int)[0] == t[0]);
            }
        }
        assert(!matches_at(t, 0, t.len() as int, descriptor_words(DescriptorWords::Alt)[2])) by {
            let w = descriptor_words(DescriptorWords::Alt)[2];
            assert(w == "ALT"@);
            if matches_at(t, 0, t.len() as int, w) {
                assert(t.subrange(0, w.len() as int)[0] == t[0]);
            }
        }
        lemma_first_match_none(t, 0, t.len() as int, descriptor_words(DescriptorWords::Alt));
        assert(!matches_at(t, 0, t.len() as int, descriptor_words(DescriptorWords::Major13)[0])) by {
            let w = descriptor_words(DescriptorWords::Major13)[0];
            assert(w == "maj13"@);
            if matches_at(t, 0, t.len() as int, w) {
                assert(t.subrange(0, w.len() as int)[0] == t[0]);
            }
        }
        assert(!matches_at(t, 0, t.len() as int, descriptor_words(DescriptorWords::Major13)[1])) by {
            let w = descriptor_words(DescriptorWords::Major13)[1];
            assert(w == "Maj13"@);
            if matches_at(t, 0, t.len() as int, w) {
                assert(t.subrange(0, w.len() as int)[0] == t[0]);
            }
        }
        assert(!matches_at(t, 0, t.len() as int, descriptor_words(DescriptorWords::Major13)[2])) by {
            let w = descriptor_words(DescriptorWords::Major13)[2];
            assert(w == "MAJ13"@);
            if matches_at(t, 0, t.len() as int, w) {
                assert(t.subrange(0, w.len() as int)[0] == t[0]);
            }
        }
        assert(!matches_at(t, 0, t.len() as int, descriptor_words(DescriptorWords::Major13)[3])) by {
            let w = descriptor_words(DescriptorWords::Major13)[3];
            assert(w == "M13"@);
            if matches_at(t, 0, t.len() as int, w) {
                assert(t.subrange(0, w.len() as int)[0] == t[0]);
            }
        }
        assert(!matches_at(t, 0, t.len() as int, descriptor_words(DescriptorWords::Major13)[4])) by {
            let w = descriptor_words(DescriptorWords::Major13)[4];
            assert(w == "\u{394}13"@);
            if matches_at(t, 0, t.len() as int, w) {
                assert(t.subrange(0, w.len() as int)[0] == t[0]);
            }
        }
        assert(!matches_at(t, 0, t.len() as int, descriptor_words(DescriptorWords::Major13)[5])) by {
            let w = descriptor_words(DescriptorWords::Major13)[5];
            assert(w == "\u{25b3}13"@);
            if matches_at(t, 0, t.len() as int, w) {
                assert(t.subrange(0, w.len() as int)[0] == t[0]);
            }
        }
        lemma_first_match_none(t, 0, t.len() as int, descriptor_words(DescriptorWords::Major13));
        assert(!matches_at(t, 0, t.len() as int, descriptor_words(DescriptorWords::Major11)[0])) by {
            let w = descriptor_words(DescriptorWords::Major11)[0];
            assert(w == "maj11"@);
            if matches_at(t, 0, t.len() as int, w) {
                assert(t.subrange(0, w.len() as int)[0] == t[0]);
            }
        }
        assert(!matches_at(t, 0, t.len() as int, descriptor_words(DescriptorWords::Major11)[1])) by {
            let w = descriptor_words(DescriptorWords::Major11)[1];
            assert(w == "Maj11"@);
            if matches_at(t, 0, t.len() as int, w) {
                assert(t.subrange(0, w.len() as int)[0] == t[0]);
            }
        }
        assert(!matches_at(t, 0, t.len() as int, descriptor_words(DescriptorWords::Major11)[2])) by {
            let w = descriptor_words(DescriptorWords::Major11)[2];
            assert(w == "MAJ11"@);
            if matches_at(t, 0, t.len() as int, w) {
                assert(t.subrange(0, w.len() as int)[0] == t[0]);
            }
        }
        assert(!matches_at(t, 0, t.len() as int, descriptor_words(DescriptorWords::Major11)[3])) by {
            let w = descriptor_words(DescriptorWords::Major11)[3];
            assert(w == "M11"@);
            if matches_at(t, 0, t.len() as int, w) {
                assert(t.subrange(0, w.len() as int)[0] == t[0]);
            }
        }
        assert(!matches_at(t, 0, t.len() as int, descriptor_words(DescriptorWords::Major11)[4])) by {
            let w = descriptor_words(DescriptorWords::Major11)[4];
            assert(w == "\u{394}11"@);
            if matches_at(t, 0, t.len() as int, w) {
                assert(t.subrange(0, w.len() as int)[0] == t[0]);
            }
        }
        assert(!matches_at(t, 0, t.len() as int, descriptor_words(DescriptorWords::Major11)[5])) by {
            let w = descriptor_words(DescriptorWords::Major11)[5];
            assert(w == "\u{25b3}11"@);
            if matches_at(t, 0, t.len() as int, w) {
                assert(t.subrange(0, w.len() as int)[0] == t[0]);
            }
        }
        lemma_first_match_none(t, 0, t.len() as int, descriptor_words(DescriptorWords::Major11));
        assert(!matches_at(t, 0, t.len() as int, descriptor_words(DescriptorWords::Major9)[0])) by {
            let w = descriptor_words(DescriptorWords::Major9)[0];
            assert(w == "maj9"@);
            if matches_at(t, 0, t.len() as int, w) {
                assert(t.subrange(0, w.len() as int)[0] == t[0]);
            }
        }
        assert(!matches_at(t, 0, t.len() as int, descriptor_words(DescriptorWords::Major9)[1])) by {
            let w = descriptor_words(DescriptorWords::Major9)[1];
            assert(w == "Maj9"@);
            if matches_at(t, 0, t.len() as int, w) {
                assert(t.subrange(0, w.len() as int)[0] == t[0]);
            }
        }
        assert(!matches_at(t, 0, t.len() as int, descriptor_words(DescriptorWords::Major9)[2])) by {
            let w = descriptor_words(DescriptorWords::Major9)[2];
            assert(w == "MAJ9"@);
            if matches_at(t, 0, t.len() as int, w) {
                assert(t.subrange(0, w.len() as int)[0] == t[0]);
            }
        }
        assert(!matches_at(t, 0, t.len() as int, descriptor_words(DescriptorWords::Major9)[3])) by {
            let w = descriptor_words(DescriptorWords::Major9)[3];
            assert(w == "M9"@);
            if matches_at(t, 0, t.len() as int, w) {
                assert(t.subrange(0, w.len() as int)[0] == t[0]);
            }
        }
        assert(!matches_at(t, 0, t.len() as int, descriptor_words(DescriptorWords::Major9)[4])) by {
            let w = descriptor_words(DescriptorWords::Major9)[4];
            assert(w == "\u{394}9"@);
            if matches_at(t, 0, t.len() as int, w) {
                assert(t.subrange(0, w.len() as int)[0] == t[0]);
            }
        }
        assert(!matches_at(t, 0, t.len() as int, descriptor_words(DescriptorWords::Major9)[5])) by {
            let w = descriptor_words(DescriptorWords::Major9)[5];
            assert(w == "\u{25b3}9"@);
            if matches_at(t, 0, t.len() as int, w) {
                assert(t.subrange(0, w.len() as int)[0] == t[0]);
            }
        }
        lemma_first_match_none(t, 0, t.len() as int, descriptor_words(DescriptorWords::Major9));
        assert(!matches_at(t, 0, t.len() as int, descriptor_words(DescriptorWords::Major7)[0])) by {
            let w = descriptor_words(DescriptorWords::Major7)[0];
            assert(w == "maj7"@);
            if matches_at(t, 0, t.len() as int, w) {
                assert(t.subrange(0, w.len() as int)[0] == t[0]);
            }
        }
        assert(!matches_at(t, 0, t.len() as int, descriptor_words(DescriptorWords::Major7)[1])) by {
            let w = descriptor_words(DescriptorWords::Major7)[1];
            assert(w == "Maj7"@);
            if matches_at(t, 0, t.len() as int, w) {
                assert(t.subrange(0, w.len() as int)[0] == t[0]);
            }
        }
        assert(!matches_at(t, 0, t.len() as int, descriptor_words(DescriptorWords::Major7)[2])) by {
            let w = descriptor_words(DescriptorWords::Major7)[2];
            assert(w == "MAJ7"@);
            if matches_at(t, 0, t.len() as int, w) {
                assert(t.subrange(0, w.len() as int)[0] == t[0]);
            }
        }
        assert(!matches_at(t, 0, t.len() as int, descriptor_words(DescriptorWords::Major7)[3])) by {
            let w = descriptor_words(DescriptorWords::Major7)[3];
            assert(w == "M7"@);
            if matches_at(t, 0, t.len() as int, w) {
                assert(t.subrange(0, w.len() as int)[0] == t[0]);
            }
        }
        assert(!matches_at(t, 0, t.len() as int, descriptor_words(DescriptorWords::Major7)[4])) by {
            let w = descriptor_words(DescriptorWords::Major7)[4];
            assert(w == "\u{394}7"@);
            if matches_at(t, 0, t.len() as int, w) {
                assert(t.subrange(0, w.len() as int)[0] == t[0]);
            }
        }
        assert(!matches_at(t, 0, t.len() as int, descriptor_words(DescriptorWords::Major7)[5])) by {
            let w = descriptor_words(DescriptorWords::Major7)[5];
            assert(w == "\u{25b3}7"@);
            if matches_at(t, 0, t.len() as int, w) {
                assert(t.subrange(0, w.len() as int)[0] == t[0]);
            }
        }
        assert(!matches_at(t, 0, t.len() as int, descriptor_words(DescriptorWords::Major7)[6])) by {
            let w = descriptor_words(DescriptorWords::Major7)[6];
            assert(w == "\u{394}"@);
            if matches_at(t, 0, t.len() as int, w) {
                assert(t.subrange(0, w.len() as int)[0] == t[0]);
            }
        }
        assert(!matches_at(t, 0, t.len() as int, descriptor_words(DescriptorWords::Major7)[7])) by {
            let w = descriptor_words(DescriptorWords::Major7)[7];
            assert(w == "\u{25b3}"@);
            if matches_at(t, 0, t.len() as int, w) {
                assert(t.subrange(0, w.len() as int)[0] == t[0]);
            }
        }
        lemma_first_match_none(t, 0, t.len() as int, descriptor_words(DescriptorWords::Major7));
        assert(!matches_at(t, 0, t.len() as int, descriptor_words(DescriptorWords::Sus2)[0])) by {
            let w = descriptor_words(DescriptorWords::Sus2)[0];
            assert(w == "sus2"@);
            if matches_at(t, 0, t.len() as int, w) {
                assert(t.subrange(0, w.len() as int)[0] == t[0]);
            }
        }
        assert(!matches_at(t, 0, t.len() as int, descriptor_words(DescriptorWords::Sus2)[1])) by {
            let w = descriptor_words(DescriptorWords::Sus2)[1];
            assert(w == "Sus2"@);
            if matches_at(t, 0, t.len() as int, w) {
                assert(t.subrange(0, w.len() as int)[0] == t[0]);
            }
        }
        assert(!matches_at(t, 0, t.len() as int, descriptor_words(DescriptorWords::Sus2)[2])) by {
            let w = descriptor_words(DescriptorWords::Sus2)[2];
            assert(w == "SUS2"@);
            if matches_at(t, 0, t.len() as int, w) {
                assert(t.subrange(0, w.len() as int)[0] == t[0]);
            }
        }
        lemma_first_match_none(t, 0, t.len() as int, descriptor_words(DescriptorWords::Sus2));
        assert(!matches_at(t, 0, t.len() as int, descriptor_words(DescriptorWords::Sus4)[0])) by {
            let w = descriptor_words(DescriptorWords::Sus4)[0];
            assert(w == "sus4"@);
            if matches_at(t, 0, t.len() as int, w) {
                assert(t.subrange(0, w.len() as int)[0] == t[0]);
            }
        }
        assert(!matches_at(t, 0, t.len() as int, descriptor_words(DescriptorWords::Sus4)[1])) by {
            let w = descriptor_words(DescriptorWords::Sus4)[1];
            assert(w == "Sus4"@);
            if matches_at(t, 0, t.len() as int, w) {
                assert(t.subrange(0, w.len() as int)[0] == t[0]);
            }
        }
        assert(!matches_at(t, 0, t.len() as int, descriptor_words(DescriptorWords::Sus4)[2])) by {
            let w = descriptor_words(DescriptorWords::Sus4)[2];
            assert(w == "SUS4"@);
            if matches_at(t, 0, t.len() as int, w) {
                assert(t.subrange(0, w.len() as int)[0] == t[0]);
            }
        }
        assert(!matches_at(t, 0, t.len() as int, descriptor_words(DescriptorWords::Sus4)[3])) by {
            let w = descriptor_words(DescriptorWords::Sus4)[3];
            assert(w == "sus"@);
            if matches_at(t, 0, t.len() as int, w) {
                assert(t.subrange(0, w.len() as int)[0] == t[0]);
            }
        }
        assert(!matches_at(t, 0, t.len() as int, descriptor_words(DescriptorWords::Sus4)[4])) by {
            let w = descriptor_words(DescriptorWords::Sus4)[4];
            assert(w == "Sus"@);
            if matches_at(t, 0, t.len() as int, w) {
                assert(t.subrange(0, w.len() as int)[0] == t[0]);
            }
        }
        assert(!matches_at(t, 0, t.len() as int, descriptor_words(DescriptorWords::Sus4)[5])) by {
            let w = descriptor_words(DescriptorWords::Sus4)[5];
            assert(w == "SUS"@);
            if matches_at(t, 0, t.len() as int, w) {
                assert(t.subrange(0, w.len() as int)[0] == t[0]);
            }
        }
        lemma_first_match_none(t, 0, t.len() as int, descriptor_words(DescriptorWords::Sus4));
        assert(!matches_at(t, 0, t.len() as int, descriptor_words(DescriptorWords::Add13)[0])) by {
            let w = descriptor_words(DescriptorWords::Add13)[0];
            assert(w == "add13"@);
            if matches_at(t, 0, t.len() as int, w) {
                assert(t.subrange(0, w.len() as int)[0] == t[0]);
            }
        }
        lemma_first_match_none(t, 0, t.len() as int, descriptor_words(DescriptorWords::Add13));
        assert(!matches_at(t, 0, t.len() as int, descriptor_words(DescriptorWords::Add11)[0])) by {
            let w = descriptor_words(DescriptorWords::Add11)[0];
            assert(w == "add11"@);
            if matches_at(t, 0, t.len() as int, w) {
                assert(t.subrange(0, w.len() as int)[0] == t[0]);
            }
        }
        assert(!matches_at(t, 0, t.len() as int, descriptor_words(DescriptorWords::Add11)[1])) by {
            let w = descriptor_words(DescriptorWords::Add11)[1];
            assert(w == "add4"@);
            if matches_at(t, 0, t.len() as int, w) {
                assert(t.subrange(0, w.len() as int)[0] == t[0]);
            }
        }
        lemma_first_match_none(t, 0, t.len() as int, descriptor_words(DescriptorWords::Add11));
        assert(!matches_at(t, 0, t.len() as int, descriptor_words(DescriptorWords::Add9)[0])) by {
            let w = descriptor_words(DescriptorWords::Add9)[0];
            assert(w == "add9"@);
            if matches_at(t, 0, t.len() as int, w) {
                assert(t.subrange(0, w.len() as int)[0] == t[0]);
            }
        }
        assert(!matches_at(t, 0, t.len() as int, descriptor_words(DescriptorWords::Add9)[1])) by {
            let w = descriptor_words(DescriptorWords::Add9)[1];
            assert(w == "add2"@);
            if matches_at(t, 0, t.len() as int, w) {
                assert(t.subrange(0, w.len() as int)[0] == t[0]);
            }
        }
        lemma_first_match_none(t, 0, t.len() as int, descriptor_words(DescriptorWords::Add9));
        assert(!matches_at(t, 0, t.len() as int, descriptor_words(DescriptorWords::No5)[0])) by {
            let w = descriptor_words(DescriptorWords::No5)[0];
            assert(w == "omit5"@);
            if matches_at(t, 0, t.len() as int, w) {
                assert(t.subrange(0, w.len() as int)[0] == t[0]);
            }
        }
        assert(!matches_at(t, 0, t.len() as int, descriptor_words(DescriptorWords::No5)[1])) by {
            let w = descriptor_words(DescriptorWords::No5)[1];
            assert(w == "no5"@);
            if matches_at(t, 0, t.len() as int, w) {
                assert(t.subrange(0, w.len() as int)[0] == t[0]);
            }
        }
        lemma_first_match_none(t, 0, t.len() as int, descriptor_words(DescriptorWords::No5));
        assert(!matches_at(t, 0, t.len() as int, descriptor_words(DescriptorWords::No3)[0])) by {
            let w = descriptor_words(DescriptorWords::No3)[0];
            assert(w == "omit3"@);
            if matches_at(t, 0, t.len() as int, w) {
                assert(t.subrange(0, w.len() as int)[0] == t[0]);
            }
        }
        assert(!matches_at(t, 0, t.len() as int, descriptor_words(DescriptorWords::No3)[1])) by {
            let w = descriptor_words(DescriptorWords::No3)[1];
            assert(w == "no3"@);
            if matches_at(t, 0, t.len() as int, w) {
                assert(t.subrange(0, w.len() as int)[0] == t[0]);
            }
        }
        lemma_first_match_none(t, 0, t.len() as int, descriptor_words(DescriptorWords::No3));
        assert(!matches_at(t, 0, t.len() as int, descriptor_words(DescriptorWords::No1)[0])) by {
            let w = descriptor_words(DescriptorWords::No1)[0];
            assert(w == "omit1"@);
            if matches_at(t, 0, t.len() as int, w) {
                assert(t.subrange(0, w.len() as int)[0] == t[0]);
            }
        }
        assert(!matches_at(t, 0, t.len() as int, descriptor_words(DescriptorWords::No1)[1])) by {
            let w = descriptor_words(DescriptorWords::No1)[1];
            assert(w == "no1"@);
            if matches_at(t, 0, t.len() as int, w) {
                assert(t.subrange(0, w.len() as int)[0] == t[0]);
            }
        }
        lemma_first_match_none(t, 0, t.len() as int, descriptor_words(DescriptorWords::No1));
        assert(!matches_at(t, 0, t.len() as int, descriptor_words(DescriptorWords::Thirteen)[0])) by {
            let w = descriptor_words(DescriptorWords::Thirteen)[0];
            assert(w == "13"@);
            if matches_at(t, 0, t.len() as int, w) {
                assert(t.subrange(0, w.len() as int)[0] == t[0]);
            }
        }
        lemma_first_match_none(t, 0, t.len() as int, descriptor_words(DescriptorWords::Thirteen));
        assert(!matches_at(t, 0, t.len() as int, descriptor_words(DescriptorWords::Eleven)[0])) by {
            let w = descriptor_words(DescriptorWords::Eleven)[0];
            assert(w == "11"@);
            if matches_at(t, 0, t.len() as int, w) {
                assert(t.subrange(0, w.len() as int)[0] == t[0]);
            }
        }
        lemma_first_match_none(t, 0, t.len() as int, descriptor_words(DescriptorWords::Eleven));
        assert(!matches_at(t, 0, t.len() as int, descriptor_words(DescriptorWords::Nine)[0])) by {
            let w = descriptor_words(DescriptorWords::Nine)[0];
            assert(w == "9"@);
            if matches_at(t, 0, t.len() as int, w) {
                assert(t.subrange(0, w.len() as int)[0] == t[0]);
            }
        }
        lemma_first_match_none(t, 0, t.len() as int, descriptor_words(DescriptorWords::Nine));
        assert(!matches_at(t, 0, t.len() as int, descriptor_words(DescriptorWords::SixNine)[0])) by {
            let w = descriptor_words(DescriptorWords::SixNine)[0];
            assert(w == "6/9"@);
            if matches_at(t, 0, t.len() as int, w) {
                assert(t.subrange(0, w.len() as int)[0] == t[0]);
            }
        }
        assert(!matches_at(t, 0, t.len() as int, descriptor_words(DescriptorWords::SixNine)[1])) by {
            let w = descriptor_words(DescriptorWords::SixNine)[1];
            assert(w == "69"@);
            if matches_at(t, 0, t.len() as int, w) {
                assert(t.subrange(0, w.len() as int)[0] == t[0]);
            }
        }
        lemma_first_match_none(t, 0, t.len() as int, descriptor_words(DescriptorWords::SixNine));
        assert(descriptor_words(DescriptorWords::Seven)[0] == "7"@);
        assert(matches_at(t, 0, t.len() as int, descriptor_words(DescriptorWords::Seven)[0])) by {
            assert(t.subrange(0, 1) =~= h);
            assert(descriptor_words(DescriptorWords::Seven)[0] =~= h);
        }
    }
}

/// Reading back an added degree as it is printed: at the start of any text
/// that begins with the printed `add` of bit `k` of a spec, the reader
/// finds the word for that degree, and applying it to any state that has
/// not added it gives a state that adds it, 9, 11 or 13 for bits 0, 1, 2.
pub proof fn lemma_added_degree_reads_back(spec: ChordSpec, k: int, t: Seq<char>, st: DescriptorState)
    requires
        0 <= k < 3,
        add_piece(spec, k).len() > 0,
        t.len() >= add_piece(spec, k).len(),
        t.subrange(0, add_piece(spec, k).len() as int) == add_piece(spec, k),
        !st.spec.has_add(if k == 0 { 9int } else if k == 1 { 11int } else { 13int }),
    ensures
        ({
            let found = token_at(t, 0);
            let d = if k == 0 { 9int } else if k == 1 { 11int } else { 13int };
            &&& found is Some
            &&& (found->0).1 == add_piece(spec, k).len()
            &&& apply_token(st, (found->0).0) is Some
            &&& (apply_token(st, (found->0).0)->0).spec.has_add(d)
        }),
{
    reveal(token_at);
    reveal(apply_token);
    reveal_strlit("\u{f8}7");
    reveal_strlit("\u{d8}7");
    reveal_strlit("\u{f8}");
    reveal_strlit("\u{d8}");
    reveal_strlit("alt");
    reveal_strlit("Alt");
    reveal_strlit("ALT");
    reveal_strlit("maj13");
    reveal_strlit("Maj13");
    reveal_strlit("MAJ13");
    reveal_strlit("M13");
    reveal_strlit("\u{394}13");
    reveal_strlit("\u{25b3}13");
    reveal_strlit("maj11");
    reveal_strlit("Maj11");
    reveal_strlit("MAJ11");
    reveal_strlit("M11");
    reveal_strlit("\u{394}11");
    reveal_strlit("\u{25b3}11");
    reveal_strlit("maj9");
    reveal_strlit("Maj9");
    reveal_strlit("MAJ9");
    reveal_strlit("M9");
    reveal_strlit("\u{394}9");
    reveal_strlit("\u{25b3}9");
    reveal_strlit("maj7");
    reveal_strlit("Maj7");
    reveal_strlit("MAJ7");
    reveal_strlit("M7");
    reveal_strlit("\u{394}7");
    reveal_strlit("\u{25b3}7");
    reveal_strlit("\u{394}");
    reveal_strlit("\u{25b3}");
    reveal_strlit("sus2");
    reveal_strlit("Sus2");
    reveal_strlit("SUS2");
    reveal_strlit("sus4");
    reveal_strlit("Sus4");
    reveal_strlit("SUS4");
    reveal_strlit("sus");
    reveal_strlit("Sus");
    reveal_strlit("SUS");
    reveal_strlit("add13");
    reveal_strlit("add11");
    reveal_strlit("add4");
    reveal_strlit("add9");
    reveal_strlit("add2");
    reveal_strlit("omit5");
    reveal_strlit("no5");
    reveal_strlit("omit3");
    reveal_strlit("no3");
    reveal_strlit("omit1");
    reveal_strlit("no1");
    let h = add_piece(spec, k);
    assert forall|j: int| 0 <= j < h.len() implies #[trigger] t[j] == h[j] by {
        assert(t.subrange(0, h.len() as int)[j] == t[j]);
    }
    if k == 0 {
        assert(h =~= seq!['a', 'd', 'd', '9']);
        assert(!matches_at(t, 0, t.len() as int, descriptor_words(DescriptorWords::HalfDiminishedSeventh)[0])) by {
            let w = descriptor_words(DescriptorWords::HalfDiminishedSeventh)[0];
            assert(w == "\u{f8}7"@);
            if matches_at(t, 0, t.len() as int, w) {
                assert(t.subrange(0, w.len() as int)[0] == t[0]);
            }
        }
        assert(!matches_at(t, 0, t.len() as int, descriptor_words(DescriptorWords::HalfDiminishedSeventh)[1])) by {
            let w = descriptor_words(DescriptorWords::HalfDiminishedSeventh)[1];
            assert(w == "\u{d8}7"@);
            if matches_at(t, 0, t.len() as int, w) {
                assert(t.subrange(0, w.len() as int)[0] == t[0]);
            }
        }
        lemma_first_match_none(t, 0, t.len() as int, descriptor_words(DescriptorWords::HalfDiminishedSeventh));
        assert(!matches_at(t, 0, t.len() as int, descriptor_words(DescriptorWords::HalfDiminished)[0])) by {
            let w = descriptor_words(DescriptorWords::HalfDiminished)[0];
            assert(w == "\u{f8}"@);
            if matches_at(t, 0, t.len() as int, w) {
                assert(t.subrange(0, w.len() as int)[0] == t[0]);
            }
        }
        assert(!matches_at(t, 0, t.len() as int, descriptor_words(DescriptorWords::HalfDiminished)[1])) by {
            let w = descriptor_words(DescriptorWords::HalfDiminished)[1];
            assert(w == "\u{d8}"@);
            if matches_at(t, 0, t.len() as int, w) {
                assert(t.subrange(0, w.len() as int)[0] == t[0]);
            }
        }
        lemma_first_match_none(t, 0, t.len() as int, descriptor_words(DescriptorWords::HalfDiminished));
        assert(!matches_at(t, 0, t.len() as int, descriptor_words(DescriptorWords::Alt)[0])) by {
            let w = descriptor_words(DescriptorWords::Alt)[0];
            assert(w == "alt"@);
            if matches_at(t, 0, t.len() as int, w) {
                assert(t.subrange(0, w.len() as int)[1] == t[1]);
            }
        }
        assert(!matches_at(t, 0, t.len() as int, descriptor_words(DescriptorWords::Alt)[1])) by {
            let w = descriptor_words(DescriptorWords::Alt)[1];
            assert(w == "Alt"@);
            if matches_at(t, 0, t.len() as int, w) {
                assert(t.subrange(0, w.len() as int)[0] == t[0]);
            }
        }
        assert(!matches_at(t, 0, t.len() as int, descriptor_words(DescriptorWords::Alt)[2])) by {
            let w = descriptor_words(DescriptorWords::Alt)[2];
            assert(w == "ALT"@);
            if matches_at(t, 0, t.len() as int, w) {
                assert(t.subrange(0, w.len() as int)[0] == t[0]);
            }
        }
        lemma_first_match_none(t, 0, t.len() as int, descriptor_words(DescriptorWords::Alt));
        assert(!matches_at(t, 0, t.len() as int, descriptor_words(DescriptorWords::Major13)[0])) by {
            let w = descriptor_words(DescriptorWords::Major13)[0];
            assert(w == "maj13"@);
            if matches_at(t, 0, t.len() as int, w) {
                assert(t.subrange(0, w.len() as int)[0] == t[0]);
            }
        }
        assert(!matches_at(t, 0, t.len() as int, descriptor_words(DescriptorWords::Major13)[1])) by {
            let w = descriptor_words(DescriptorWords::Major13)[1];
            assert(w == "Maj13"@);
            if matches_at(t, 0, t.len() as int, w) {
                assert(t.subrange(0, w.len() as int)[0] == t[0]);
            }
        }
        assert(!matches_at(t, 0, t.len() as int, descriptor_words(DescriptorWords::Major13)[2])) by {
            let w = descriptor_words(DescriptorWords::Major13)[2];
            assert(w == "MAJ13"@);
            if matches_at(t, 0, t.len() as int, w) {
                assert(t.subrange(0, w.len() as int)[0] == t[0]);
            }
        }
        assert(!matches_at(t, 0, t.len() as int, descriptor_words(DescriptorWords::Major13)[3])) by {
            let w = descriptor_words(DescriptorWords::Major13)[3];
            assert(w == "M13"@);
            if matches_at(t, 0, t.len() as int, w) {
                assert(t.subrange(0, w.len() as int)[0] == t[0]);
            }
        }
        assert(!matches_at(t, 0, t.len() as int, descriptor_words(DescriptorWords::Major13)[4])) by {
            let w = descriptor_words(DescriptorWords::Major13)[4];
            assert(w == "\u{394}13"@);
            if matches_at(t, 0, t.len() as int, w) {
                assert(t.subrange(0, w.len() as int)[0] == t[0]);
            }
        }
        assert(!matches_at(t, 0, t.len() as int, descriptor_words(DescriptorWords::Major13)[5])) by {
            let w = descriptor_words(DescriptorWords::Major13)[5];
            assert(w == "\u{25b3}13"@);
            if matches_at(t, 0, t.len() as int, w) {
                assert(t.subrange(0, w.len() as int)[0] == t[0]);
            }
        }
        lemma_first_match_none(t, 0, t.len() as int, descriptor_words(DescriptorWords::Major13));
        assert(!matches_at(t, 0, t.len() as int, descriptor_words(DescriptorWords::Major11)[0])) by {
            let w = descriptor_words(DescriptorWords::Major11)[0];
            assert(w == "maj11"@);
            if matches_at(t, 0, t.len() as int, w) {
                assert(t.subrange(0, w.len() as int)[0] == t[0]);
            }
        }
        assert(!matches_at(t, 0, t.len() as int, descriptor_words(DescriptorWords::Major11)[1])) by {
            let w = descriptor_words(DescriptorWords::Major11)[1];
            assert(w == "Maj11"@);
            if matches_at(t, 0, t.len() as int, w) {
                assert(t.subrange(0, w.len() as int)[0] == t[0]);
            }
        }
        assert(!matches_at(t, 0, t.len() as int, descriptor_words(DescriptorWords::Major11)[2])) by {
            let w = descriptor_words(DescriptorWords::Major11)[2];
            assert(w == "MAJ11"@);
            if matches_at(t, 0, t.len() as int, w) {
                assert(t.subrange(0, w.len() as int)[0] == t[0]);
            }
        }
        assert(!matches_at(t, 0, t.len() as int, descriptor_words(DescriptorWords::Major11)[3])) by {
            let w = descriptor_words(DescriptorWords::Major11)[3];
            assert(w == "M11"@);
            if matches_at(t, 0, t.len() as int, w) {
                assert(t.subrange(0, w.len() as int)[0] == t[0]);
            }
        }
        assert(!matches_at(t, 0, t.len() as int, descriptor_words(DescriptorWords::Major11)[4])) by {
            let w = descriptor_words(DescriptorWords::Major11)[4];
            assert(w == "\u{394}11"@);
            if matches_at(t, 0, t.len() as int, w) {
                assert(t.subrange(0, w.len() as int)[0] == t[0]);
            }
        }
        assert(!matches_at(t, 0, t.len() as int, descriptor_words(DescriptorWords::Major11)[5])) by {
            let w = descriptor_words(DescriptorWords::Major11)[5];
            assert(w == "\u{25b3}11"@);
            if matches_at(t, 0, t.len() as int, w) {
                assert(t.subrange(0, w.len() as int)[0] == t[0]);
            }
        }
        lemma_first_match_none(t, 0, t.len() as int, descriptor_words(DescriptorWords::Major11));
        assert(!matches_at(t, 0, t.len() as int, descriptor_words(DescriptorWords::Major9)[0])) by {
            let w = descriptor_words(DescriptorWords::Major9)[0];
            assert(w == "maj9"@);
            if matches_at(t, 0, t.len() as int, w) {
                assert(t.subrange(0, w.len() as int)[0] == t[0]);
            }
        }
        assert(!matches_at(t, 0, t.len() as int, descriptor_words(DescriptorWords::Major9)[1])) by {
            let w = descriptor_words(DescriptorWords::Major9)[1];
            assert(w == "Maj9"@);
            if matches_at(t, 0, t.len() as int, w) {
                assert(t.subrange(0, w.len() as int)[0] == t[0]);
            }
        }
        assert(!matches_at(t, 0, t.len() as int, descriptor_words(DescriptorWords::Major9)[2])) by {
            let w = descriptor_words(DescriptorWords::Major9)[2];
            assert(w == "MAJ9"@);
            if matches_at(t, 0, t.len() as int, w) {
                assert(t.subrange(0, w.len() as int)[0] == t[0]);
            }
        }
        assert(!matches_at(t, 0, t.len() as int, descriptor_words(DescriptorWords::Major9)[3])) by {
            let w = descriptor_words(DescriptorWords::Major9)[3];
            assert(w == "M9"@);
            if matches_at(t, 0, t.len() as int, w) {
                assert(t.subrange(0, w.len() as int)[0] == t[0]);
            }
        }
        assert(!matches_at(t, 0, t.len() as int, descriptor_words(DescriptorWords::Major9)[4])) by {
            let w = descriptor_words(DescriptorWords::Major9)[4];
            assert(w == "\u{394}9"@);
            if matches_at(t, 0, t.len() as int, w) {
                assert(t.subrange(0, w.len() as int)[0] == t[0]);
            }
        }
        assert(!matches_at(t, 0, t.len() as int, descriptor_words(DescriptorWords::Major9)[5])) by {
            let w = descriptor_words(DescriptorWords::Major9)[5];
            assert(w == "\u{25b3}9"@);
            if matches_at(t, 0, t.len() as int, w) {
                assert(t.subrange(0, w.len() as int)[0] == t[0]);
            }
        }
        lemma_first_match_none(t, 0, t.len() as int, descriptor_words(DescriptorWords::Major9));
        assert(!matches_at(t, 0, t.len() as int, descriptor_words(DescriptorWords::Major7)[0])) by {
            let w = descriptor_words(DescriptorWords::Major7)[0];
            assert(w == "maj7"@);
            if matches_at(t, 0, t.len() as int, w) {
                assert(t.subrange(0, w.len() as int)[0] == t[0]);
            }
        }
        assert(!matches_at(t, 0, t.len() as int, descriptor_words(DescriptorWords::Major7)[1])) by {
            let w = descriptor_words(DescriptorWords::Major7)[1];
            assert(w == "Maj7"@);
            if matches_at(t, 0, t.len() as int, w) {
                assert(t.subrange(0, w.len() as int)[0] == t[0]);
            }
        }
        assert(!matches_at(t, 0, t.len() as int, descriptor_words(DescriptorWords::Major7)[2])) by {
            let w = descriptor_words(DescriptorWords::Major7)[2];
            assert(w == "MAJ7"@);
            if matches_at(t, 0, t.len() as int, w) {
                assert(t.subrange(0, w.len() as int)[0] == t[0]);
            }
        }
        assert(!matches_at(t, 0, t.len() as int, descriptor_words(DescriptorWords::Major7)[3])) by {
            let w = descriptor_words(DescriptorWords::Major7)[3];
            assert(w == "M7"@);
            if matches_at(t, 0, t.len() as int, w) {
                assert(t.subrange(0, w.len() as int)[0] == t[0]);
            }
        }
        assert(!matches_at(t, 0, t.len() as int, descriptor_words(DescriptorWords::Major7)[4])) by {
            let w = descriptor_words(DescriptorWords::Major7)[4];
            assert(w == "\u{394}7"@);
            if matches_at(t, 0, t.len() as int, w) {
                assert(t.subrange(0, w.len() as int)[0] == t[0]);
            }
        }
        assert(!matches_at(t, 0, t.len() as int, descriptor_words(DescriptorWords::Major7)[5])) by {
            let w = descriptor_words(DescriptorWords::Major7)[5];
            assert(w == "\u{25b3}7"@);
            if matches_at(t, 0, t.len() as int, w) {
                assert(t.subrange(0, w.len() as int)[0] == t[0]);
            }
        }
        assert(!matches_at(t, 0, t.len() as int, descriptor_words(DescriptorWords::Major7)[6])) by {
            let w = descriptor_words(DescriptorWords::Major7)[6];
            assert(w == "\u{394}"@);
            if matches_at(t, 0, t.len() as int, w) {
                assert(t.subrange(0, w.len() as int)[0] == t[0]);
            }
        }
        assert(!matches_at(t, 0, t.len() as int, descriptor_words(DescriptorWords::Major7)[7])) by {
            let w = descriptor_words(DescriptorWords::Major7)[7];
            assert(w == "\u{25b3}"@);
            if matches_at(t, 0, t.len() as int, w) {
                assert(t.subrange(0, w.len() as int)[0] == t[0]);
            }
        }
        lemma_first_match_none(t, 0, t.len() as int, descriptor_words(DescriptorWords::Major7));
        assert(!matches_at(t, 0, t.len() as int, descriptor_words(DescriptorWords::Sus2)[0])) by {
            let w = descriptor_words(DescriptorWords::Sus2)[0];
            assert(w == "sus2"@);
            if matches_at(t, 0, t.len() as int, w) {
                assert(t.subrange(0, w.len() as int)[0] == t[0]);
            }
        }
        assert(!matches_at(t, 0, t.len() as int, descriptor_words(DescriptorWords::Sus2)[1])) by {
            let w = descriptor_words(DescriptorWords::Sus2)[1];
            assert(w == "Sus2"@);
            if matches_at(t, 0, t.len() as int, w) {
                assert(t.subrange(0, w.len() as int)[0] == t[0]);
            }
        }
        assert(!matches_at(t, 0, t.len() as int, descriptor_words(DescriptorWords::Sus2)[2])) by {
            let w = descriptor_words(DescriptorWords::Sus2)[2];
            assert(w == "SUS2"@);
            if matches_at(t, 0, t.len() as int, w) {
                assert(t.subrange(0, w.len() as int)[0] == t[0]);
            }
        }
        lemma_first_match_none(t, 0, t.len() as int, descriptor_words(DescriptorWords::Sus2));
        assert(!matches_at(t, 0, t.len() as int, descriptor_words(DescriptorWords::Sus4)[0])) by {
            let w = descriptor_words(DescriptorWords::Sus4)[0];
            assert(w == "sus4"@);
            if matches_at(t, 0, t.len() as int, w) {
                assert(t.subrange(0, w.len() as int)[0] == t[0]);
            }
        }
        assert(!matches_at(t, 0, t.len() as int, descriptor_words(DescriptorWords::Sus4)[1])) by {
            let w = descriptor_words(DescriptorWords::Sus4)[1];
            assert(w == "Sus4"@);
            if matches_at(t, 0, t.len() as int, w) {
                assert(t.subrange(0, w.len() as int)[0] == t[0]);
            }
        }
        assert(!matches_at(t, 0, t.len() as int, descriptor_words(DescriptorWords::Sus4)[2])) by {
            let w = descriptor_words(DescriptorWords::Sus4)[2];
            assert(w == "SUS4"@);
            if matches_at(t, 0, t.len() as int, w) {
                assert(t.subrange(0, w.len() as int)[0] == t[0]);
            }
        }
        assert(!matches_at(t, 0, t.len() as int, descriptor_words(DescriptorWords::Sus4)[3])) by {
            let w = descriptor_words(DescriptorWords::Sus4)[3];
            assert(w == "sus"@);
            if matches_at(t, 0, t.len() as int, w) {
                assert(t.subrange(0, w.len() as int)[0] == t[0]);
            }
        }
        assert(!matches_at(t, 0, t.len() as int, descriptor_words(DescriptorWords::Sus4)[4])) by {
            let w = descriptor_words(DescriptorWords::Sus4)[4];
            assert(w == "Sus"@);
            if matches_at(t, 0, t.len() as int, w) {
                assert(t.subrange(0, w.len() as int)[0] == t[0]);
            }
        }
        assert(!matches_at(t, 0, t.len() as int, descriptor_words(DescriptorWords::Sus4)[5])) by {
            let w = descriptor_words(DescriptorWords::Sus4)[5];
            assert(w == "SUS"@);
            if matches_at(t, 0, t.len() as int, w) {
                assert(t.subrange(0, w.len() as int)[0] == t[0]);
            }
        }
        lemma_first_match_none(t, 0, t.len() as int, descriptor_words(DescriptorWords::Sus4));
        assert(!matches_at(t, 0, t.len() as int, descriptor_words(DescriptorWords::Add13)[0])) by {
            let w = descriptor_words(DescriptorWords::Add13)[0];
            assert(w == "add13"@);
            if matches_at(t, 0, t.len() as int, w) {
                assert(t.subrange(0, w.len() as int)[3] == t[3]);
            }
        }
        lemma_first_match_none(t, 0, t.len() as int, descriptor_words(DescriptorWords::Add13));
        assert(!matches_at(t, 0, t.len() as int, descriptor_words(DescriptorWords::Add11)[0])) by {
            let w = descriptor_words(DescriptorWords::Add11)[0];
            assert(w == "add11"@);
            if matches_at(t, 0, t.len() as int, w) {
                assert(t.subrange(0, w.len() as int)[3] == t[3]);
            }
        }
        assert(!matches_at(t, 0, t.len() as int, descriptor_words(DescriptorWords::Add11)[1])) by {
            let w = descriptor_words(DescriptorWords::Add11)[1];
            assert(w == "add4"@);
            if matches_at(t, 0, t.len() as int, w) {
                assert(t.subrange(0, w.len() as int)[3] == t[3]);
            }
        }
        lemma_first_match_none(t, 0, t.len() as int, descriptor_words(DescriptorWords::Add11));
        assert(descriptor_words(DescriptorWords::Add9)[0] == "add9"@);
        assert(matches_at(t, 0, t.len() as int, descriptor_words(DescriptorWords::Add9)[0])) by {
            assert(t.subrange(0, 4) =~= h);
            assert(descriptor_words(DescriptorWords::Add9)[0] =~= h);
        }
        lemma_first_match_at(t, 0, t.len() as int, descriptor_words(DescriptorWords::Add9), 0);
        let x = st.spec.add_bits;
        assert(bit16(x | (1u16 << 0u16), 0u16)) by (bit_vector);
    } else if k == 1 {
        assert(h =~= seq!['a', 'd', 'd', '1', '1']);
        assert(!matches_at(t, 0, t.len() as int, descriptor_words(DescriptorWords::HalfDiminishedSeventh)[0])) by {
            let w = descriptor_words(DescriptorWords::HalfDiminishedSeventh)[0];
            assert(w == "\u{f8}7"@);
            if matches_at(t, 0, t.len() as int, w) {
                assert(t.subrange(0, w.len() as int)[0] == t[0]);
            }
        }
        assert(!matches_at(t, 0, t.len() as int, descriptor_words(DescriptorWords::HalfDiminishedSeventh)[1])) by {
            let w = descriptor_words(DescriptorWords::HalfDiminishedSeventh)[1];
            assert(w == "\u{d8}7"@);
            if matches_at(t, 0, t.len() as int, w) {
                assert(t.subrange(0, w.len() as int)[0] == t[0]);
            }
        }
        lemma_first_match_none(t, 0, t.len() as int, descriptor_words(DescriptorWords::HalfDiminishedSeventh));
        assert(!matches_at(t, 0, t.len() as int, descriptor_words(DescriptorWords::HalfDiminished)[0])) by {
            let w = descriptor_words(DescriptorWords::HalfDiminished)[0];
            assert(w == "\u{f8}"@);
            if matches_at(t, 0, t.len() as int, w) {
                assert(t.subrange(0, w.len() as int)[0] == t[0]);
            }
        }
        assert(!matches_at(t, 0, t.len() as int, descriptor_words(DescriptorWords::HalfDiminished)[1])) by {
            let w = descriptor_words(DescriptorWords::HalfDiminished)[1];
            assert(w == "\u{d8}"@);
            if matches_at(t, 0, t.len() as int, w) {
                assert(t.subrange(0, w.len() as int)[0] == t[0]);
            }
        }
        lemma_first_match_none(t, 0, t.len() as int, descriptor_words(DescriptorWords::HalfDiminished));
        assert(!matches_at(t, 0, t.len() as int, descriptor_words(DescriptorWords::Alt)[0])) by {
            let w = descriptor_words(DescriptorWords::Alt)[0];
            assert(w == "alt"@);
            if matches_at(t, 0, t.len() as int, w) {
                assert(t.subrange(0, w.len() as int)[1] == t[1]);
            }
        }
        assert(!matches_at(t, 0, t.len() as int, descriptor_words(DescriptorWords::Alt)[1])) by {
            let w = descriptor_words(DescriptorWords::Alt)[1];
            assert(w == "Alt"@);
            if matches_at(t, 0, t.len() as int, w) {
                assert(t.subrange(0, w.len() as int)[0] == t[0]);
            }
        }
        assert(!matches_at(t, 0, t.len() as int, descriptor_words(DescriptorWords::Alt)[2])) by {
            let w = descriptor_words(DescriptorWords::Alt)[2];
            assert(w == "ALT"@);
            if matches_at(t, 0, t.len() as int, w) {
                assert(t.subrange(0, w.len() as int)[0] == t[0]);
            }
        }
        lemma_first_match_none(t, 0, t.len() as int, descriptor_words(DescriptorWords::Alt));
        assert(!matches_at(t, 0, t.len() as int, descriptor_words(DescriptorWords::Major13)[0])) by {
            let w = descriptor_words(DescriptorWords::Major13)[0];
            assert(w == "maj13"@);
            if matches_at(t, 0, t.len() as int, w) {
                assert(t.subrange(0, w.len() as int)[0] == t[0]);
            }
        }
        assert(!matches_at(t, 0, t.len() as int, descriptor_words(DescriptorWords::Major13)[1])) by {
            let w = descriptor_words(DescriptorWords::Major13)[1];
            assert(w == "Maj13"@);
            if matches_at(t, 0, t.len() as int, w) {
                assert(t.subrange(0, w.len() as int)[0] == t[0]);
            }
        }
        assert(!matches_at(t, 0, t.len() as int, descriptor_words(DescriptorWords::Major13)[2])) by {
            let w = descriptor_words(DescriptorWords::Major13)[2];
            assert(w == "MAJ13"@);
            if matches_at(t, 0, t.len() as int, w) {
                assert(t.subrange(0, w.len() as int)[0] == t[0]);
            }
        }
        assert(!matches_at(t, 0, t.len() as int, descriptor_words(DescriptorWords::Major13)[3])) by {
            let w = descriptor_words(DescriptorWords::Major13)[3];
            assert(w == "M13"@);
            if matches_at(t, 0, t.len() as int, w) {
                assert(t.subrange(0, w.len() as int)[0] == t[0]);
            }
        }
        assert(!matches_at(t, 0, t.len() as int, descriptor_words(DescriptorWords::Major13)[4])) by {
            let w = descriptor_words(DescriptorWords::Major13)[4];
            assert(w == "\u{394}13"@);
            if matches_at(t, 0, t.len() as int, w) {
                assert(t.subrange(0, w.len() as int)[0] == t[0]);
            }
        }
        assert(!matches_at(t, 0, t.len() as int, descriptor_words(DescriptorWords::Major13)[5])) by {
            let w = descriptor_words(DescriptorWords::Major13)[5];
            assert(w == "\u{25b3}13"@);
            if matches_at(t, 0, t.len() as int, w) {
                assert(t.subrange(0, w.len() as int)[0] == t[0]);
            }
        }
        lemma_first_match_none(t, 0, t.len() as int, descriptor_words(DescriptorWords::Major13));
        assert(!matches_at(t, 0, t.len() as int, descriptor_words(DescriptorWords::Major11)[0])) by {
            let w = descriptor_words(DescriptorWords::Major11)[0];
            assert(w == "maj11"@);
            if matches_at(t, 0, t.len() as int, w) {
                assert(t.subrange(0, w.len() as int)[0] == t[0]);
            }
        }
        assert(!matches_at(t, 0, t.len() as int, descriptor_words(DescriptorWords::Major11)[1])) by {
            let w = descriptor_words(DescriptorWords::Major11)[1];
            assert(w == "Maj11"@);
            if matches_at(t, 0, t.len() as int, w) {
                assert(t.subrange(0, w.len() as int)[0] == t[0]);
            }
        }
        assert(!matches_at(t, 0, t.len() as int, descriptor_words(DescriptorWords::Major11)[2])) by {
            let w = descriptor_words(DescriptorWords::Major11)[2];
            assert(w == "MAJ11"@);
            if matches_at(t, 0, t.len() as int, w) {
                assert(t.subrange(0, w.len() as int)[0] == t[0]);
            }
        }
        assert(!matches_at(t, 0, t.len() as int, descriptor_words(DescriptorWords::Major11)[3])) by {
            let w = descriptor_words(DescriptorWords::Major11)[3];
            assert(w == "M11"@);
            if matches_at(t, 0, t.len() as int, w) {
                assert(t.subrange(0, w.len() as int)[0] == t[0]);
            }
        }
        assert(!matches_at(t, 0, t.len() as int, descriptor_words(DescriptorWords::Major11)[4])) by {
            let w = descriptor_words(DescriptorWords::Major11)[4];
            assert(w == "\u{394}11"@);
            if matches_at(t, 0, t.len() as int, w) {
                assert(t.subrange(0, w.len() as int)[0] == t[0]);
            }
        }
        assert(!matches_at(t, 0, t.len() as int, descriptor_words(DescriptorWords::Major11)[5])) by {
            let w = descriptor_words(DescriptorWords::Major11)[5];
            assert(w == "\u{25b3}11"@);
            if matches_at(t, 0, t.len() as int, w) {
                assert(t.subrange(0, w.len() as int)[0] == t[0]);
            }
        }
        lemma_first_match_none(t, 0, t.len() as int, descriptor_words(DescriptorWords::Major11));
        assert(!matches_at(t, 0, t.len() as int, descriptor_words(DescriptorWords::Major9)[0])) by {
            let w = descriptor_words(DescriptorWords::Major9)[0];
            assert(w == "maj9"@);
            if matches_at(t, 0, t.len() as int, w) {
                assert(t.subrange(0, w.len() as int)[0] == t[0]);
            }
        }
        assert(!matches_at(t, 0, t.len() as int, descriptor_words(DescriptorWords::Major9)[1])) by {
            let w = descriptor_words(DescriptorWords::Major9)[1];
            assert(w == "Maj9"@);
            if matches_at(t, 0, t.len() as int, w) {
                assert(t.subrange(0, w.len() as int)[0] == t[0]);
            }
        }
        assert(!matches_at(t, 0, t.len() as int, descriptor_words(DescriptorWords::Major9)[2])) by {
            let w = descriptor_words(DescriptorWords::Major9)[2];
            assert(w == "MAJ9"@);
            if matches_at(t, 0, t.len() as int, w) {
                assert(t.subrange(0, w.len() as int)[0] == t[0]);
            }
        }
        assert(!matches_at(t, 0, t.len() as int, descriptor_words(DescriptorWords::Major9)[3])) by {
            let w = descriptor_words(DescriptorWords::Major9)[3];
            assert(w == "M9"@);
            if matches_at(t, 0, t.len() as int, w) {
                assert(t.subrange(0, w.len() as int)[0] == t[0]);
            }
        }
        assert(!matches_at(t, 0, t.len() as int, descriptor_words(DescriptorWords::Major9)[4])) by {
            let w = descriptor_words(DescriptorWords::Major9)[4];
            assert(w == "\u{394}9"@);
            if matches_at(t, 0, t.len() as int, w) {
                assert(t.subrange(0, w.len() as int)[0] == t[0]);
            }
        }
        assert(!matches_at(t, 0, t.len() as int, descriptor_words(DescriptorWords::Major9)[5])) by {
            let w = descriptor_words(DescriptorWords::Major9)[5];
            assert(w == "\u{25b3}9"@);
            if matches_at(t, 0, t.len() as int, w) {
                assert(t.subrange(0, w.len() as int)[0] == t[0]);
            }
        }
        lemma_first_match_none(t, 0, t.len() as int, descriptor_words(DescriptorWords::Major9));
        assert(!matches_at(t, 0, t.len() as int, descriptor_words(DescriptorWords::Major7)[0])) by {
            let w = descriptor_words(DescriptorWords::Major7)[0];
            assert(w == "maj7"@);
            if matches_at(t, 0, t.len() as int, w) {
                assert(t.subrange(0, w.len() as int)[0] == t[0]);
            }
        }
        assert(!matches_at(t, 0, t.len() as int, descriptor_words(DescriptorWords::Major7)[1])) by {
            let w = descriptor_words(DescriptorWords::Major7)[1];
            assert(w == "Maj7"@);
            if matches_at(t, 0, t.len() as int, w) {
                assert(t.subrange(0, w.len() as int)[0] == t[0]);
            }
        }
        assert(!matches_at(t, 0, t.len() as int, descriptor_words(DescriptorWords::Major7)[2])) by {
            let w = descriptor_words(DescriptorWords::Major7)[2];
            assert(w == "MAJ7"@);
            if matches_at(t, 0, t.len() as int, w) {
                assert(t.subrange(0, w.len() as int)[0] == t[0]);
            }
        }
        assert(!matches_at(t, 0, t.len() as int, descriptor_words(DescriptorWords::Major7)[3])) by {
            let w = descriptor_words(DescriptorWords::Major7)[3];
            assert(w == "M7"@);
            if matches_at(t, 0, t.len() as int, w) {
                assert(t.subrange(0, w.len() as int)[0] == t[0]);
            }
        }
        assert(!matches_at(t, 0, t.len() as int, descriptor_words(DescriptorWords::Major7)[4])) by {
            let w = descriptor_words(DescriptorWords::Major7)[4];
            assert(w == "\u{394}7"@);
            if matches_at(t, 0, t.len() as int, w) {
                assert(t.subrange(0, w.len() as int)[0] == t[0]);
            }
        }
        assert(!matches_at(t, 0, t.len() as int, descriptor_words(DescriptorWords::Major7)[5])) by {
            let w = descriptor_words(DescriptorWords::Major7)[5];
            assert(w == "\u{25b3}7"@);
            if matches_at(t, 0, t.len() as int, w) {
                assert(t.subrange(0, w.len() as int)[0] == t[0]);
            }
        }
        assert(!matches_at(t, 0, t.len() as int, descriptor_words(DescriptorWords::Major7)[6])) by {
            let w = descriptor_words(DescriptorWords::Major7)[6];
            assert(w == "\u{394}"@);
            if matches_at(t, 0, t.len() as int, w) {
                assert(t.subrange(0, w.len() as int)[0] == t[0]);
            }
        }
        assert(!matches_at(t, 0, t.len() as int, descriptor_words(DescriptorWords::Major7)[7])) by {
            let w = descriptor_words(DescriptorWords::Major7)[7];
            assert(w == "\u{25b3}"@);
            if matches_at(t, 0, t.len() as int, w) {
                assert(t.subrange(0, w.len() as int)[0] == t[0]);
            }
        }
        lemma_first_match_none(t, 0, t.len() as int, descriptor_words(DescriptorWords::Major7));
        assert(!matches_at(t, 0, t.len() as int, descriptor_words(DescriptorWords::Sus2)[0])) by {
            let w = descriptor_words(DescriptorWords::Sus2)[0];
            assert(w == "sus2"@);
            if matches_at(t, 0, t.len() as int, w) {
                assert(t.subrange(0, w.len() as int)[0] == t[0]);
            }
        }
        assert(!matches_at(t, 0, t.len() as int, descriptor_words(DescriptorWords::Sus2)[1])) by {
            let w = descriptor_words(DescriptorWords::Sus2)[1];
            assert(w == "Sus2"@);
            if matches_at(t, 0, t.len() as int, w) {
                assert(t.subrange(0, w.len() as int)[0] == t[0]);
            }
        }
        assert(!matches_at(t, 0, t.len() as int, descriptor_words(DescriptorWords::Sus2)[2])) by {
            let w = descriptor_words(DescriptorWords::Sus2)[2];
            assert(w == "SUS2"@);
            if matches_at(t, 0, t.len() as int, w) {
                assert(t.subrange(0, w.len() as int)[0] == t[0]);
            }
        }
        lemma_first_match_none(t, 0, t.len() as int, descriptor_words(DescriptorWords::Sus2));
        assert(!matches_at(t, 0, t.len() as int, descriptor_words(DescriptorWords::Sus4)[0])) by {
            let w = descriptor_words(DescriptorWords::Sus4)[0];
            assert(w == "sus4"@);
            if matches_at(t, 0, t.len() as int, w) {
                assert(t.subrange(0, w.len() as int)[0] == t[0]);
            }
        }
        assert(!matches_at(t, 0, t.len() as int, descriptor_words(DescriptorWords::Sus4)[1])) by {
            let w = descriptor_words(DescriptorWords::Sus4)[1];
            assert(w == "Sus4"@);
            if matches_at(t, 0, t.len() as int, w) {
                assert(t.subrange(0, w.len() as int)[0] == t[0]);
            }
        }
        assert(!matches_at(t, 0, t.len() as int, descriptor_words(DescriptorWords::Sus4)[2])) by {
            let w = descriptor_words(DescriptorWords::Sus4)[2];
            assert(w == "SUS4"@);
            if matches_at(t, 0, t.len() as int, w) {
                assert(t.subrange(0, w.len() as int)[0] == t[0]);
            }
        }
        assert(!matches_at(t, 0, t.len() as int, descriptor_words(DescriptorWords::Sus4)[3])) by {
            let w = descriptor_words(DescriptorWords::Sus4)[3];
            assert(w == "sus"@);
            if matches_at(t, 0, t.len() as int, w) {
                assert(t.subrange(0, w.len() as int)[0] == t[0]);
            }
        }
        assert(!matches_at(t, 0, t.len() as int, descriptor_words(DescriptorWords::Sus4)[4])) by {
            let w = descriptor_words(DescriptorWords::Sus4)[4];
            assert(w == "Sus"@);
            if matches_at(t, 0, t.len() as int, w) {
                assert(t.subrange(0, w.len() as int)[0] == t[0]);
            }
        }
        assert(!matches_at(t, 0, t.len() as int, descriptor_words(DescriptorWords::Sus4)[5])) by {
            let w = descriptor_words(DescriptorWords::Sus4)[5];
            assert(w == "SUS"@);
            if matches_at(t, 0, t.len() as int, w) {
                assert(t.subrange(0, w.len() as int)[0] == t[0]);
            }
        }
        lemma_first_match_none(t, 0, t.len() as int, descriptor_words(DescriptorWords::Sus4));
        assert(!matches_at(t, 0, t.len() as int, descriptor_words(DescriptorWords::Add13)[0])) by {
            let w = descriptor_words(DescriptorWords::Add13)[0];
            assert(w == "add13"@);
            if matches_at(t, 0, t.len() as int, w) {
                assert(t.subrange(0, w.len() as int)[4] == t[4]);
            }
        }
        lemma_first_match_none(t, 0, t.len() as int, descriptor_words(DescriptorWords::Add13));
        assert(descriptor_words(DescriptorWords::Add11)[0] == "add11"@);
        assert(matches_at(t, 0, t.len() as int, descriptor_words(DescriptorWords::Add11)[0])) by {
            assert(t.subrange(0, 5) =~= h);
            assert(descriptor_words(DescriptorWords::Add11)[0] =~= h);
        }
        lemma_first_match_at(t, 0, t.len() as int, descriptor_words(DescriptorWords::Add11), 0);
        let x = st.spec.add_bits;
        assert(bit16(x | (1u16 << 1u16), 1u16)) by (bit_vector);
    } else if k == 2 {
        assert(h =~= seq!['a', 'd', 'd', '1', '3']);
        assert(!matches_at(t, 0, t.len() as int, descriptor_words(DescriptorWords::HalfDiminishedSeventh)[0])) by {
            let w = descriptor_words(DescriptorWords::HalfDiminishedSeventh)[0];
            assert(w == "\u{f8}7"@);
            if matches_at(t, 0, t.len() as int, w) {
                assert(t.subrange(0, w.len() as int)[0] == t[0]);
            }
        }
        assert(!matches_at(t, 0, t.len() as int, descriptor_words(DescriptorWords::HalfDiminishedSeventh)[1])) by {
            let w = descriptor_words(DescriptorWords::HalfDiminishedSeventh)[1];
            assert(w == "\u{d8}7"@);
            if matches_at(t, 0, t.len() as int, w) {
                assert(t.subrange(0, w.len() as int)[0] == t[0]);
            }
        }
        lemma_first_match_none(t, 0, t.len() as int, descriptor_words(DescriptorWords::HalfDiminishedSeventh));
        assert(!matches_at(t, 0, t.len() as int, descriptor_words(DescriptorWords::HalfDiminished)[0])) by {
            let w = descriptor_words(DescriptorWords::HalfDiminished)[0];
            assert(w == "\u{f8}"@);
            if matches_at(t, 0, t.len() as int, w) {
                assert(t.subrange(0, w.len() as int)[0] == t[0]);
            }
        }
        assert(!matches_at(t, 0, t.len() as int, descriptor_words(DescriptorWords::HalfDiminished)[1])) by {
            let w = descriptor_words(DescriptorWords::HalfDiminished)[1];
            assert(w == "\u{d8}"@);
            if matches_at(t, 0, t.len() as int, w) {
                assert(t.subrange(0, w.len() as int)[0] == t[0]);
            }
        }
        lemma_first_match_none(t, 0, t.len() as int, descriptor_words(DescriptorWords::HalfDiminished));
        assert(!matches_at(t, 0, t.len() as int, descriptor_words(DescriptorWords::Alt)[0])) by {
            let w = descriptor_words(DescriptorWords::Alt)[0];
            assert(w == "alt"@);
            if matches_at(t, 0, t.len() as int, w) {
                assert(t.subrange(0, w.len() as int)[1] == t[1]);
            }
        }
        assert(!matches_at(t, 0, t.len() as int, descriptor_words(DescriptorWords::Alt)[1])) by {
            let w = descriptor_words(DescriptorWords::Alt)[1];
            assert(w == "Alt"@);
            if matches_at(t, 0, t.len() as int, w) {
                assert(t.subrange(0, w.len() as int)[0] == t[0]);
            }
        }
        assert(!matches_at(t, 0, t.len() as int, descriptor_words(DescriptorWords::Alt)[2])) by {
            let w = descriptor_words(DescriptorWords::Alt)[2];
            assert(w == "ALT"@);
            if matches_at(t, 0, t.len() as int, w) {
                assert(t.subrange(0, w.len() as int)[0] == t[0]);
            }
        }
        lemma_first_match_none(t, 0, t.len() as int, descriptor_words(DescriptorWords::Alt));
        assert(!matches_at(t, 0, t.len() as int, descriptor_words(DescriptorWords::Major13)[0])) by {
            let w = descriptor_words(DescriptorWords::Major13)[0];
            assert(w == "maj13"@);
            if matches_at(t, 0, t.len() as int, w) {
                assert(t.subrange(0, w.len() as int)[0] == t[0]);
            }
        }
        assert(!matches_at(t, 0, t.len() as int, descriptor_words(DescriptorWords::Major13)[1])) by {
            let w = descriptor_words(DescriptorWords::Major13)[1];
            assert(w == "Maj13"@);
            if matches_at(t, 0, t.len() as int, w) {
                assert(t.subrange(0, w.len() as int)[0] == t[0]);
            }
        }
        assert(!matches_at(t, 0, t.len() as int, descriptor_words(DescriptorWords::Major13)[2])) by {
            let w = descriptor_words(DescriptorWords::Major13)[2];
            assert(w == "MAJ13"@);
            if matches_at(t, 0, t.len() as int, w) {
                assert(t.subrange(0, w.len() as int)[0] == t[0]);
            }
        }
        assert(!matches_at(t, 0, t.len() as int, descriptor_words(DescriptorWords::Major13)[3])) by {
            let w = descriptor_words(DescriptorWords::Major13)[3];
            assert(w == "M13"@);
            if matches_at(t, 0, t.len() as int, w) {
                assert(t.subrange(0, w.len() as int)[0] == t[0]);
            }
        }
        assert(!matches_at(t, 0, t.len() as int, descriptor_words(DescriptorWords::Major13)[4])) by {
            let w = descriptor_words(DescriptorWords::Major13)[4];
            assert(w == "\u{394}13"@);
            if matches_at(t, 0, t.len() as int, w) {
                assert(t.subrange(0, w.len() as int)[0] == t[0]);
            }
        }
        assert(!matches_at(t, 0, t.len() as int, descriptor_words(DescriptorWords::Major13)[5])) by {
            let w = descriptor_words(DescriptorWords::Major13)[5];
            assert(w == "\u{25b3}13"@);
            if matches_at(t, 0, t.len() as int, w) {
                assert(t.subrange(0, w.len() as int)[0] == t[0]);
            }
        }
        lemma_first_match_none(t, 0, t.len() as int, descriptor_words(DescriptorWords::Major13));
        assert(!matches_at(t, 0, t.len() as int, descriptor_words(DescriptorWords::Major11)[0])) by {
            let w = descriptor_words(DescriptorWords::Major11)[0];
            assert(w == "maj11"@);
            if matches_at(t, 0, t.len() as int, w) {
                assert(t.subrange(0, w.len() as int)[0] == t[0]);
            }
        }
        assert(!matches_at(t, 0, t.len() as int, descriptor_words(DescriptorWords::Major11)[1])) by {
            let w = descriptor_words(DescriptorWords::Major11)[1];
            assert(w == "Maj11"@);
            if matches_at(t, 0, t.len() as int, w) {
                assert(t.subrange(0, w.len() as int)[0] == t[0]);
            }
        }
        assert(!matches_at(t, 0, t.len() as int, descriptor_words(DescriptorWords::Major11)[2])) by {
            let w = descriptor_words(DescriptorWords::Major11)[2];
            assert(w == "MAJ11"@);
            if matches_at(t, 0, t.len() as int, w) {
                assert(t.subrange(0, w.len() as int)[0] == t[0]);
            }
        }
        assert(!matches_at(t, 0, t.len() as int, descriptor_words(DescriptorWords::Major11)[3])) by {
            let w = descriptor_words(DescriptorWords::Major11)[3];
            assert(w == "M11"@);
            if matches_at(t, 0, t.len() as int, w) {
                assert(t.subrange(0, w.len() as int)[0] == t[0]);
            }
        }
        assert(!matches_at(t, 0, t.len() as int, descriptor_words(DescriptorWords::Major11)[4])) by {
            let w = descriptor_words(DescriptorWords::Major11)[4];
            assert(w == "\u{394}11"@);
            if matches_at(t, 0, t.len() as int, w) {
                assert(t.subrange(0, w.len() as int)[0] == t[0]);
            }
        }
        assert(!matches_at(t, 0, t.len() as int, descriptor_words(DescriptorWords::Major11)[5])) by {
            let w = descriptor_words(DescriptorWords::Major11)[5];
            assert(w == "\u{25b3}11"@);
            if matches_at(t, 0, t.len() as int, w) {
                assert(t.subrange(0, w.len() as int)[0] == t[0]);
            }
        }
        lemma_first_match_none(t, 0, t.len() as int, descriptor_words(DescriptorWords::Major11));
        assert(!matches_at(t, 0, t.len() as int, descriptor_words(DescriptorWords::Major9)[0])) by {
            let w = descriptor_words(DescriptorWords::Major9)[0];
            assert(w == "maj9"@);
            if matches_at(t, 0, t.len() as int, w) {
                assert(t.subrange(0, w.len() as int)[0] == t[0]);
            }
        }
        assert(!matches_at(t, 0, t.len() as int, descriptor_words(DescriptorWords::Major9)[1])) by {
            let w = descriptor_words(DescriptorWords::Major9)[1];
            assert(w == "Maj9"@);
            if matches_at(t, 0, t.len() as int, w) {
                assert(t.subrange(0, w.len() as int)[0] == t[0]);
            }
        }
        assert(!matches_at(t, 0, t.len() as int, descriptor_words(DescriptorWords::Major9)[2])) by {
            let w = descriptor_words(DescriptorWords::Major9)[2];
            assert(w == "MAJ9"@);
            if matches_at(t, 0, t.len() as int, w) {
                assert(t.subrange(0, w.len() as int)[0] == t[0]);
            }
        }
        assert(!matches_at(t, 0, t.len() as int, descriptor_words(DescriptorWords::Major9)[3])) by {
            let w = descriptor_words(DescriptorWords::Major9)[3];
            assert(w == "M9"@);
            if matches_at(t, 0, t.len() as int, w) {
                assert(t.subrange(0, w.len() as int)[0] == t[0]);
            }
        }
        assert(!matches_at(t, 0, t.len() as int, descriptor_words(DescriptorWords::Major9)[4])) by {
            let w = descriptor_words(DescriptorWords::Major9)[4];
            assert(w == "\u{394}9"@);
            if matches_at(t, 0, t.len() as int, w) {
                assert(t.subrange(0, w.len() as int)[0] == t[0]);
            }
        }
        assert(!matches_at(t, 0, t.len() as int, descriptor_words(DescriptorWords::Major9)[5])) by {
            let w = descriptor_words(DescriptorWords::Major9)[5];
            assert(w == "\u{25b3}9"@);
            if matches_at(t, 0, t.len() as int, w) {
                assert(t.subrange(0, w.len() as int)[0] == t[0]);
            }
        }
        lemma_first_match_none(t, 0, t.len() as int, descriptor_words(DescriptorWords::Major9));
        assert(!matches_at(t, 0, t.len() as int, descriptor_words(DescriptorWords::Major7)[0])) by {
            let w = descriptor_words(DescriptorWords::Major7)[0];
            assert(w == "maj7"@);
            if matches_at(t, 0, t.len() as int, w) {
                assert(t.subrange(0, w.len() as int)[0] == t[0]);
            }
        }
        assert(!matches_at(t, 0, t.len() as int, descriptor_words(DescriptorWords::Major7)[1])) by {
            let w = descriptor_words(DescriptorWords::Major7)[1];
            assert(w == "Maj7"@);
            if matches_at(t, 0, t.len() as int, w) {
                assert(t.subrange(0, w.len() as int)[0] == t[0]);
            }
        }
        assert(!matches_at(t, 0, t.len() as int, descriptor_words(DescriptorWords::Major7)[2])) by {
            let w = descriptor_words(DescriptorWords::Major7)[2];
            assert(w == "MAJ7"@);
            if matches_at(t, 0, t.len() as int, w) {
                assert(t.subrange(0, w.len() as int)[0] == t[0]);
            }
        }
        assert(!matches_at(t, 0, t.len() as int, descriptor_words(DescriptorWords::Major7)[3])) by {
            let w = descriptor_words(DescriptorWords::Major7)[3];
            assert(w == "M7"@);
            if matches_at(t, 0, t.len() as int, w) {
                assert(t.subrange(0, w.len() as int)[0] == t[0]);
            }
        }
        assert(!matches_at(t, 0, t.len() as int, descriptor_words(DescriptorWords::Major7)[4])) by {
            let w = descriptor_words(DescriptorWords::Major7)[4];
            assert(w == "\u{394}7"@);
            if matches_at(t, 0, t.len() as int, w) {
                assert(t.subrange(0, w.len() as int)[0] == t[0]);
            }
        }
        assert(!matches_at(t, 0, t.len() as int, descriptor_words(DescriptorWords::Major7)[5])) by {
            let w = descriptor_words(DescriptorWords::Major7)[5];
            assert(w == "\u{25b3}7"@);
            if matches_at(t, 0, t.len() as int, w) {
                assert(t.subrange(0, w.len() as int)[0] == t[0]);
            }
        }
        assert(!matches_at(t, 0, t.len() as int, descriptor_words(DescriptorWords::Major7)[6])) by {
            let w = descriptor_words(DescriptorWords::Major7)[6];
            assert(w == "\u{394}"@);
            if matches_at(t, 0, t.len() as int, w) {
                assert(t.subrange(0, w.len() as int)[0] == t[0]);
            }
        }
        assert(!matches_at(t, 0, t.len() as int, descriptor_words(DescriptorWords::Major7)[7])) by {
            let w = descriptor_words(DescriptorWords::Major7)[7];
            assert(w == "\u{25b3}"@);
            if matches_at(t, 0, t.len() as int, w) {
                assert(t.subrange(0, w.len() as int)[0] == t[0]);
            }
        }
        lemma_first_match_none(t, 0, t.len() as int, descriptor_words(DescriptorWords::Major7));
        assert(!matches_at(t, 0, t.len() as int, descriptor_words(DescriptorWords::Sus2)[0])) by {
            let w = descriptor_words(DescriptorWords::Sus2)[0];
            assert(w == "sus2"@);
            if matches_at(t, 0, t.len() as int, w) {
                assert(t.subrange(0, w.len() as int)[0] == t[0]);
            }
        }
        assert(!matches_at(t, 0, t.len() as int, descriptor_words(DescriptorWords::Sus2)[1])) by {
            let w = descriptor_words(DescriptorWords::Sus2)[1];
            assert(w == "Sus2"@);
            if matches_at(t, 0, t.len() as int, w) {
                assert(t.subrange(0, w.len() as int)[0] == t[0]);
            }
        }
        assert(!matches_at(t, 0, t.len() as int, descriptor_words(DescriptorWords::Sus2)[2])) by {
            let w = descriptor_words(DescriptorWords::Sus2)[2];
            assert(w == "SUS2"@);
            if matches_at(t, 0, t.len() as int, w) {
                assert(t.subrange(0, w.len() as int)[0] == t[0]);
            }
        }
        lemma_first_match_none(t, 0, t.len() as int, descriptor_words(DescriptorWords::Sus2));
        assert(!matches_at(t, 0, t.len() as int, descriptor_words(DescriptorWords::Sus4)[0])) by {
            let w = descriptor_words(DescriptorWords::Sus4)[0];
            assert(w == "sus4"@);
            if matches_at(t, 0, t.len() as int, w) {
                assert(t.subrange(0, w.len() as int)[0] == t[0]);
            }
        }
        assert(!matches_at(t, 0, t.len() as int, descriptor_words(DescriptorWords::Sus4)[1])) by {
            let w = descriptor_words(DescriptorWords::Sus4)[1];
            assert(w == "Sus4"@);
            if matches_at(t, 0, t.len() as int, w) {
                assert(t.subrange(0, w.len() as int)[0] == t[0]);
            }
        }
        assert(!matches_at(t, 0, t.len() as int, descriptor_words(DescriptorWords::Sus4)[2])) by {
            let w = descriptor_words(DescriptorWords::Sus4)[2];
            assert(w == "SUS4"@);
            if matches_at(t, 0, t.len() as int, w) {
                assert(t.subrange(0, w.len() as int)[0] == t[0]);
            }
        }
        assert(!matches_at(t, 0, t.len() as int, descriptor_words(DescriptorWords::Sus4)[3])) by {
            let w = descriptor_words(DescriptorWords::Sus4)[3];
            assert(w == "sus"@);
            if matches_at(t, 0, t.len() as int, w) {
                assert(t.subrange(0, w.len() as int)[0] == t[0]);
            }
        }
        assert(!matches_at(t, 0, t.len() as int, descriptor_words(DescriptorWords::Sus4)[4])) by {
            let w = descriptor_words(DescriptorWords::Sus4)[4];
            assert(w == "Sus"@);
            if matches_at(t, 0, t.len() as int, w) {
                assert(t.subrange(0, w.len() as int)[0] == t[0]);
            }
        }
        assert(!matches_at(t, 0, t.len() as int, descriptor_words(DescriptorWords::Sus4)[5])) by {
            let w = descriptor_words(DescriptorWords::Sus4)[5];
            assert(w == "SUS"@);
            if matches_at(t, 0, t.len() as int, w) {
                assert(t.subrange(0, w.len() as int)[0] == t[0]);
            }
        }
        lemma_first_match_none(t, 0, t.len() as int, descriptor_words(DescriptorWords::Sus4));
        assert(descriptor_words(DescriptorWords::Add13)[0] == "add13"@);
        assert(matches_at(t, 0, t.len() as int, descriptor_words(DescriptorWords::Add13)[0])) by {
            assert(t.subrange(0, 5) =~= h);
            assert(descriptor_words(DescriptorWords::Add13)[0] =~= h);
        }
        lemma_first_match_at(t, 0, t.len() as int, descriptor_words(DescriptorWords::Add13), 0);
        let x = st.spec.add_bits;
        assert(bit16(x | (1u16 << 2u16), 2u16)) by (bit_vector);
    }
}

/// Reading back an omission as it is printed: at the start of any text
/// that begins with the printed omissions of a spec from bit `k`, where bit
/// `k` is set, the reader finds the word for that omission, and applying
/// it to any state that has not omitted the degree gives a state that
/// omits it, 1, 3 or 5 for bits 0, 1, 2.
pub proof fn lemma_omission_reads_back(spec: ChordSpec, k: int, t: Seq<char>, st: DescriptorState)
    requires
        0 <= k < 3,
        bit16(spec.omission_bits, k as u16),
        t.len() >= omissions_text(spec, k).len(),
        t.subrange(0, omissions_text(spec, k).len() as int) == omissions_text(spec, k),
        !st.spec.has_omission(if k == 0 { 1int } else if k == 1 { 3int } else { 5int }),
    ensures
        ({
            let found = token_at(t, 0);
            let d = if k == 0 { 1int } else if k == 1 { 3int } else { 5int };
            &&& found is Some
            &&& (found->0).1 == 3
            &&& apply_token(st, (found->0).0) is Some
            &&& (apply_token(st, (found->0).0)->0).spec.has_omission(d)
        }),
{
    reveal(token_at);
    reveal(apply_token);
    reveal_strlit("\u{f8}7");
    reveal_strlit("\u{d8}7");
    reveal_strlit("\u{f8}");
    reveal_strlit("\u{d8}");
    reveal_strlit("alt");
    reveal_strlit("Alt");
    reveal_strlit("ALT");
    reveal_strlit("maj13");
    reveal_strlit("Maj13");
    reveal_strlit("MAJ13");
    reveal_strlit("M13");
    reveal_strlit("\u{394}13");
    reveal_strlit("\u{25b3}13");
    reveal_strlit("maj11");
    reveal_strlit("Maj11");
    reveal_strlit("MAJ11");
    reveal_strlit("M11");
    reveal_strlit("\u{394}11");
    reveal_strlit("\u{25b3}11");
    reveal_strlit("maj9");
    reveal_strlit("Maj9");
    reveal_strlit("MAJ9");
    reveal_strlit("M9");
    reveal_strlit("\u{394}9");
    reveal_strlit("\u{25b3}9");
    reveal_strlit("maj7");
    reveal_strlit("Maj7");
    reveal_strlit("MAJ7");
    reveal_strlit("M7");
    reveal_strlit("\u{394}7");
    reveal_strlit("\u{25b3}7");
    reveal_strlit("\u{394}");
    reveal_strlit("\u{25b3}");
    reveal_strlit("sus2");
    reveal_strlit("Sus2");
    reveal_strlit("SUS2");
    reveal_strlit("sus4");
    reveal_strlit("Sus4");
    reveal_strlit("SUS4");
    reveal_strlit("sus");
    reveal_strlit("Sus");
    reveal_strlit("SUS");
    reveal_strlit("add13");
    reveal_strlit("add11");
    reveal_strlit("add4");
    reveal_strlit("add9");
    reveal_strlit("add2");
    reveal_strlit("omit5");
    reveal_strlit("no5");
    reveal_strlit("omit3");
    reveal_strlit("no3");
    reveal_strlit("omit1");
    reveal_strlit("no1");
    let h = omissions_text(spec, k);
    assert forall|j: int| 0 <= j < h.len() implies #[trigger] t[j] == h[j] by {
        assert(t.subrange(0, h.len() as int)[j] == t[j]);
    }
    if k == 0 {
        assert(h[0] == 'n' && h[1] == 'o' && h[2] == '1');
        assert(!matches_at(t, 0, t.len() as int, descriptor_words(DescriptorWords::HalfDiminishedSeventh)[0])) by {
            let w = descriptor_words(DescriptorWords::HalfDiminishedSeventh)[0];
            assert(w == "\u{f8}7"@);
            if matches_at(t, 0, t.len() as int, w) {
                assert(t.subrange(0, w.len() as int)[0] == t[0]);
            }
        }
        assert(!matches_at(t, 0, t.len() as int, descriptor_words(DescriptorWords::HalfDiminishedSeventh)[1])) by {
            let w = descriptor_words(DescriptorWords::HalfDiminishedSeventh)[1];
            assert(w == "\u{d8}7"@);
            if matches_at(t, 0, t.len() as int, w) {
                assert(t.subrange(0, w.len() as int)[0] == t[0]);
            }
        }
        lemma_first_match_none(t, 0, t.len() as int, descriptor_words(DescriptorWords::HalfDiminishedSeventh));
        assert(!matches_at(t, 0, t.len() as int, descriptor_words(DescriptorWords::HalfDiminished)[0])) by {
            let w = descriptor_words(DescriptorWords::HalfDiminished)[0];
            assert(w == "\u{f8}"@);
            if matches_at(t, 0, t.len() as int, w) {
                assert(t.subrange(0, w.len() as int)[0] == t[0]);
            }
        }
        assert(!matches_at(t, 0, t.len() as int, descriptor_words(DescriptorWords::HalfDiminished)[1])) by {
            let w = descriptor_words(DescriptorWords::HalfDiminished)[1];
            assert(w == "\u{d8}"@);
            if matches_at(t, 0, t.len() as int, w) {
                assert(t.subrange(0, w.len() as int)[0] == t[0]);
            }
        }
        lemma_first_match_none(t, 0, t.len() as int, descriptor_words(DescriptorWords::HalfDiminished));
        assert(!matches_at(t, 0, t.len() as int, descriptor_words(DescriptorWords::Alt)[0])) by {
            let w = descriptor_words(DescriptorWords::Alt)[0];
            assert(w == "alt"@);
            if matches_at(t, 0, t.len() as int, w) {
                assert(t.subrange(0, w.len() as int)[0] == t[0]);
            }
        }
        assert(!matches_at(t, 0, t.len() as int, descriptor_words(DescriptorWords::Alt)[1])) by {
            let w = descriptor_words(DescriptorWords::Alt)[1];
            assert(w == "Alt"@);
            if matches_at(t, 0, t.len() as int, w) {
                assert(t.subrange(0, w.len() as int)[0] == t[0]);
            }
        }
        assert(!matches_at(t, 0, t.len() as int, descriptor_words(DescriptorWords::Alt)[2])) by {
            let w = descriptor_words(DescriptorWords::Alt)[2];
            assert(w == "ALT"@);
            if matches_at(t, 0, t.len() as int, w) {
                assert(t.subrange(0, w.len() as int)[0] == t[0]);
            }
        }
        lemma_first_match_none(t, 0, t.len() as int, descriptor_words(DescriptorWords::Alt));
        assert(!matches_at(t, 0, t.len() as int, descriptor_words(DescriptorWords::Major13)[0])) by {
            let w = descriptor_words(DescriptorWords::Major13)[0];
            assert(w == "maj13"@);
            if matches_at(t, 0, t.len() as int, w) {
                assert(t.subrange(0, w.len() as int)[0] == t[0]);
            }
        }
        assert(!matches_at(t, 0, t.len() as int, descriptor_words(DescriptorWords::Major13)[1])) by {
            let w = descriptor_words(DescriptorWords::Major13)[1];
            assert(w == "Maj13"@);
            if matches_at(t, 0, t.len() as int, w) {
                assert(t.subrange(0, w.len() as int)[0] == t[0]);
            }
        }
        assert(!matches_at(t, 0, t.len() as int, descriptor_words(DescriptorWords::Major13)[2])) by {
            let w = descriptor_words(DescriptorWords::Major13)[2];
            assert(w == "MAJ13"@);
            if matches_at(t, 0, t.len() as int, w) {
                assert(t.subrange(0, w.len() as int)[0] == t[0]);
            }
        }
        assert(!matches_at(t, 0, t.len() as int, descriptor_words(DescriptorWords::Major13)[3])) by {
            let w = descriptor_words(DescriptorWords::Major13)[3];
            assert(w == "M13"@);
            if matches_at(t, 0, t.len() as int, w) {
                assert(t.subrange(0, w.len() as int)[0] == t[0]);
            }
        }
        assert(!matches_at(t, 0, t.len() as int, descriptor_words(DescriptorWords::Major13)[4])) by {
            let w = descriptor_words(DescriptorWords::Major13)[4];
            assert(w == "\u{394}13"@);
            if matches_at(t, 0, t.len() as int, w) {
                assert(t.subrange(0, w.len() as int)[0] == t[0]);
            }
        }
        assert(!matches_at(t, 0, t.len() as int, descriptor_words(DescriptorWords::Major13)[5])) by {
            let w = descriptor_words(DescriptorWords::Major13)[5];
            assert(w == "\u{25b3}13"@);
            if matches_at(t, 0, t.len() as int, w) {
                assert(t.subrange(0, w.len() as int)[0] == t[0]);
            }
        }
        lemma_first_match_none(t, 0, t.len() as int, descriptor_words(DescriptorWords::Major13));
        assert(!matches_at(t, 0, t.len() as int, descriptor_words(DescriptorWords::Major11)[0])) by {
            let w = descriptor_words(DescriptorWords::Major11)[0];
            assert(w == "maj11"@);
            if matches_at(t, 0, t.len() as int, w) {
                assert(t.subrange(0, w.len() as int)[0] == t[0]);
            }
        }
        assert(!matches_at(t, 0, t.len() as int, descriptor_words(DescriptorWords::Major11)[1])) by {
            let w = descriptor_words(DescriptorWords::Major11)[1];
            assert(w == "Maj11"@);
            if matches_at(t, 0, t.len() as int, w) {
                assert(t.subrange(0, w.len() as int)[0] == t[0]);
            }
        }
        assert(!matches_at(t, 0, t.len() as int, descriptor_words(DescriptorWords::Major11)[2])) by {
            let w = descriptor_words(DescriptorWords::Major11)[2];
            assert(w == "MAJ11"@);
            if matches_at(t, 0, t.len() as int, w) {
                assert(t.subrange(0, w.len() as int)[0] == t[0]);
            }
        }
        assert(!matches_at(t, 0, t.len() as int, descriptor_words(DescriptorWords::Major11)[3])) by {
            let w = descriptor_words(DescriptorWords::Major11)[3];
            assert(w == "M11"@);
            if matches_at(t, 0, t.len() as int, w) {
                assert(t.subrange(0, w.len() as int)[0] == t[0]);
            }
        }
        assert(!matches_at(t, 0, t.len() as int, descriptor_words(DescriptorWords::Major11)[4])) by {
            let w = descriptor_words(DescriptorWords::Major11)[4];
            assert(w == "\u{394}11"@);
            if matches_at(t, 0, t.len() as int, w) {
                assert(t.subrange(0, w.len() as int)[0] == t[0]);
            }
        }
        assert(!matches_at(t, 0, t.len() as int, descriptor_words(DescriptorWords::Major11)[5])) by {
            let w = descriptor_words(DescriptorWords::Major11)[5];
            assert(w == "\u{25b3}11"@);
            if matches_at(t, 0, t.len() as int, w) {
                assert(t.subrange(0, w.len() as int)[0] == t[0]);
            }
        }
        lemma_first_match_none(t, 0, t.len() as int, descriptor_words(DescriptorWords::Major11));
        assert(!matches_at(t, 0, t.len() as int, descriptor_words(DescriptorWords::Major9)[0])) by {
            let w = descriptor_words(DescriptorWords::Major9)[0];
            assert(w == "maj9"@);
            if matches_at(t, 0, t.len() as int, w) {
                assert(t.subrange(0, w.len() as int)[0] == t[0]);
            }
        }
        assert(!matches_at(t, 0, t.len() as int, descriptor_words(DescriptorWords::Major9)[1])) by {
            let w = descriptor_words(DescriptorWords::Major9)[1];
            assert(w == "Maj9"@);
            if matches_at(t, 0, t.len() as int, w) {
                assert(t.subrange(0, w.len() as int)[0] == t[0]);
            }
        }
        assert(!matches_at(t, 0, t.len() as int, descriptor_words(DescriptorWords::Major9)[2])) by {
            let w = descriptor_words(DescriptorWords::Major9)[2];
            assert(w == "MAJ9"@);
            if matches_at(t, 0, t.len() as int, w) {
                assert(t.subrange(0, w.len() as int)[0] == t[0]);
            }
        }
        assert(!matches_at(t, 0, t.len() as int, descriptor_words(DescriptorWords::Major9)[3])) by {
            let w = descriptor_words(DescriptorWords::Major9)[3];
            assert(w == "M9"@);
            if matches_at(t, 0, t.len() as int, w) {
                assert(t.subrange(0, w.len() as int)[0] == t[0]);
            }
        }
        assert(!matches_at(t, 0, t.len() as int, descriptor_words(DescriptorWords::Major9)[4])) by {
            let w = descriptor_words(DescriptorWords::Major9)[4];
            assert(w == "\u{394}9"@);
            if matches_at(t, 0, t.len() as int, w) {
                assert(t.subrange(0, w.len() as int)[0] == t[0]);
            }
        }
        assert(!matches_at(t, 0, t.len() as int, descriptor_words(DescriptorWords::Major9)[5])) by {
            let w = descriptor_words(DescriptorWords::Major9)[5];
            assert(w == "\u{25b3}9"@);
            if matches_at(t, 0, t.len() as int, w) {
                assert(t.subrange(0, w.len() as int)[0] == t[0]);
            }
        }
        lemma_first_match_none(t, 0, t.len() as int, descriptor_words(DescriptorWords::Major9));
        assert(!matches_at(t, 0, t.len() as int, descriptor_words(DescriptorWords::Major7)[0])) by {
            let w = descriptor_words(DescriptorWords::Major7)[0];
            assert(w == "maj7"@);
            if matches_at(t, 0, t.len() as int, w) {
                assert(t.subrange(0, w.len() as int)[0] == t[0]);
            }
        }
        assert(!matches_at(t, 0, t.len() as int, descriptor_words(DescriptorWords::Major7)[1])) by {
            let w = descriptor_words(DescriptorWords::Major7)[1];
            assert(w == "Maj7"@);
            if matches_at(t, 0, t.len() as int, w) {
                assert(t.subrange(0, w.len() as int)[0] == t[0]);
            }
        }
        assert(!matches_at(t, 0, t.len() as int, descriptor_words(DescriptorWords::Major7)[2])) by {
            let w = descriptor_words(DescriptorWords::Major7)[2];
            assert(w == "MAJ7"@);
            if matches_at(t, 0, t.len() as int, w) {
                assert(t.subrange(0, w.len() as int)[0] == t[0]);
            }
        }
        assert(!matches_at(t, 0, t.len() as int, descriptor_words(DescriptorWords::Major7)[3])) by {
            let w = descriptor_words(DescriptorWords::Major7)[3];
            assert(w == "M7"@);
            if matches_at(t, 0, t.len() as int, w) {
                assert(t.subrange(0, w.len() as int)[0] == t[0]);
            }
        }
        assert(!matches_at(t, 0, t.len() as int, descriptor_words(DescriptorWords::Major7)[4])) by {
            let w = descriptor_words(DescriptorWords::Major7)[4];
            assert(w == "\u{394}7"@);
            if matches_at(t, 0, t.len() as int, w) {
                assert(t.subrange(0, w.len() as int)[0] == t[0]);
            }
        }
        assert(!matches_at(t, 0, t.len() as int, descriptor_words(DescriptorWords::Major7)[5])) by {
            let w = descriptor_words(DescriptorWords::Major7)[5];
            assert(w == "\u{25b3}7"@);
            if matches_at(t, 0, t.len() as int, w) {
                assert(t.subrange(0, w.len() as int)[0] == t[0]);
            }
        }
        assert(!matches_at(t, 0, t.len() as int, descriptor_words(DescriptorWords::Major7)[6])) by {
            let w = descriptor_words(DescriptorWords::Major7)[6];
            assert(w == "\u{394}"@);
            if matches_at(t, 0, t.len() as int, w) {
                assert(t.subrange(0, w.len() as int)[0] == t[0]);
            }
        }
        assert(!matches_at(t, 0, t.len() as int, descriptor_words(DescriptorWords::Major7)[7])) by {
            let w = descriptor_words(DescriptorWords::Major7)[7];
            assert(w == "\u{25b3}"@);
            if matches_at(t, 0, t.len() as int, w) {
                assert(t.subrange(0, w.len() as int)[0] == t[0]);
            }
        }
        lemma_first_match_none(t, 0, t.len() as int, descriptor_words(DescriptorWords::Major7));
        assert(!matches_at(t, 0, t.len() as int, descriptor_words(DescriptorWords::Sus2)[0])) by {
            let w = descriptor_words(DescriptorWords::Sus2)[0];
            assert(w == "sus2"@);
            if matches_at(t, 0, t.len() as int, w) {
                assert(t.subrange(0, w.len() as int)[0] == t[0]);
            }
        }
        assert(!matches_at(t, 0, t.len() as int, descriptor_words(DescriptorWords::Sus2)[1])) by {
            let w = descriptor_words(DescriptorWords::Sus2)[1];
            assert(w == "Sus2"@);
            if matches_at(t, 0, t.len() as int, w) {
                assert(t.subrange(0, w.len() as int)[0] == t[0]);
            }
        }
        assert(!matches_at(t, 0, t.len() as int, descriptor_words(DescriptorWords::Sus2)[2])) by {
            let w = descriptor_words(DescriptorWords::Sus2)[2];
            assert(w == "SUS2"@);
            if matches_at(t, 0, t.len() as int, w) {
                assert(t.subrange(0, w.len() as int)[0] == t[0]);
            }
        }
        lemma_first_match_none(t, 0, t.len() as int, descriptor_words(DescriptorWords::Sus2));
        assert(!matches_at(t, 0, t.len() as int, descriptor_words(DescriptorWords::Sus4)[0])) by {
            let w = descriptor_words(DescriptorWords::Sus4)[0];
            assert(w == "sus4"@);
            if matches_at(t, 0, t.len() as int, w) {
                assert(t.subrange(0, w.len() as int)[0] == t[0]);
            }
        }
        assert(!matches_at(t, 0, t.len() as int, descriptor_words(DescriptorWords::Sus4)[1])) by {
            let w = descriptor_words(DescriptorWords::Sus4)[1];
            assert(w == "Sus4"@);
            if matches_at(t, 0, t.len() as int, w) {
                assert(t.subrange(0, w.len() as int)[0] == t[0]);
            }
        }
        assert(!matches_at(t, 0, t.len() as int, descriptor_words(DescriptorWords::Sus4)[2])) by {
            let w = descriptor_words(DescriptorWords::Sus4)[2];
            assert(w == "SUS4"@);
            if matches_at(t, 0, t.len() as int, w) {
                assert(t.subrange(0, w.len() as int)[0] == t[0]);
            }
        }
        assert(!matches_at(t, 0, t.len() as int, descriptor_words(DescriptorWords::Sus4)[3])) by {
            let w = descriptor_words(DescriptorWords::Sus4)[3];
            assert(w == "sus"@);
            if matches_at(t, 0, t.len() as int, w) {
                assert(t.subrange(0, w.len() as int)[0] == t[0]);
            }
        }
        assert(!matches_at(t, 0, t.len() as int, descriptor_words(DescriptorWords::Sus4)[4])) by {
            let w = descriptor_words(DescriptorWords::Sus4)[4];
            assert(w == "Sus"@);
            if matches_at(t, 0, t.len() as int, w) {
                assert(t.subrange(0, w.len() as int)[0] == t[0]);
            }
        }
        assert(!matches_at(t, 0, t.len() as int, descriptor_words(DescriptorWords::Sus4)[5])) by {
            let w = descriptor_words(DescriptorWords::Sus4)[5];
            assert(w == "SUS"@);
            if matches_at(t, 0, t.len() as int, w) {
                assert(t.subrange(0, w.len() as int)[0] == t[0]);
            }
        }
        lemma_first_match_none(t, 0, t.len() as int, descriptor_words(DescriptorWords::Sus4));
        assert(!matches_at(t, 0, t.len() as int, descriptor_words(DescriptorWords::Add13)[0])) by {
            let w = descriptor_words(DescriptorWords::Add13)[0];
            assert(w == "add13"@);
            if matches_at(t, 0, t.len() as int, w) {
                assert(t.subrange(0, w.len() as int)[0] == t[0]);
            }
        }
        lemma_first_match_none(t, 0, t.len() as int, descriptor_words(DescriptorWords::Add13));
        assert(!matches_at(t, 0, t.len() as int, descriptor_words(DescriptorWords::Add11)[0])) by {
            let w = descriptor_words(DescriptorWords::Add11)[0];
            assert(w == "add11"@);
            if matches_at(t, 0, t.len() as int, w) {
                assert(t.subrange(0, w.len() as int)[0] == t[0]);
            }
        }
        assert(!matches_at(t, 0, t.len() as int, descriptor_words(DescriptorWords::Add11)[1])) by {
            let w = descriptor_words(DescriptorWords::Add11)[1];
            assert(w == "add4"@);
            if matches_at(t, 0, t.len() as int, w) {
                assert(t.subrange(0, w.len() as int)[0] == t[0]);
            }
        }
        lemma_first_match_none(t, 0, t.len() as int, descriptor_words(DescriptorWords::Add11));
        assert(!matches_at(t, 0, t.len() as int, descriptor_words(DescriptorWords::Add9)[0])) by {
            let w = descriptor_words(DescriptorWords::Add9)[0];
            assert(w == "add9"@);
            if matches_at(t, 0, t.len() as int, w) {
                assert(t.subrange(0, w.len() as int)[0] == t[0]);
            }
        }
        assert(!matches_at(t, 0, t.len() as int, descriptor_words(DescriptorWords::Add9)[1])) by {
            let w = descriptor_words(DescriptorWords::Add9)[1];
            assert(w == "add2"@);
            if matches_at(t, 0, t.len() as int, w) {
                assert(t.subrange(0, w.len() as int)[0] == t[0]);
            }
        }
        lemma_first_match_none(t, 0, t.len() as int, descriptor_words(DescriptorWords::Add9));
        assert(!matches_at(t, 0, t.len() as int, descriptor_words(DescriptorWords::No5)[0])) by {
            let w = descriptor_words(DescriptorWords::No5)[0];
            assert(w == "omit5"@);
            if matches_at(t, 0, t.len() as int, w) {
                assert(t.subrange(0, w.len() as int)[0] == t[0]);
            }
        }
        assert(!matches_at(t, 0, t.len() as int, descriptor_words(DescriptorWords::No5)[1])) by {
            let w = descriptor_words(DescriptorWords::No5)[1];
            assert(w == "no5"@);
            if matches_at(t, 0, t.len() as int, w) {
                assert(t.subrange(0, w.len() as int)[2] == t[2]);
            }
        }
        lemma_first_match_none(t, 0, t.len() as int, descriptor_words(DescriptorWords::No5));
        assert(!matches_at(t, 0, t.len() as int, descriptor_words(DescriptorWords::No3)[0])) by {
            let w = descriptor_words(DescriptorWords::No3)[0];
            assert(w == "omit3"@);
            if matches_at(t, 0, t.len() as int, w) {
                assert(t.subrange(0, w.len() as int)[0] == t[0]);
            }
        }
        assert(!matches_at(t, 0, t.len() as int, descriptor_words(DescriptorWords::No3)[1])) by {
            let w = descriptor_words(DescriptorWords::No3)[1];
            assert(w == "no3"@);
            if matches_at(t, 0, t.len() as int, w) {
                assert(t.subrange(0, w.len() as int)[2] == t[2]);
            }
        }
        lemma_first_match_none(t, 0, t.len() as int, descriptor_words(DescriptorWords::No3));
        assert(!matches_at(t, 0, t.len() as int, descriptor_words(DescriptorWords::No1)[0])) by {
            let w = descriptor_words(DescriptorWords::No1)[0];
            assert(w == "omit1"@);
            if matches_at(t, 0, t.len() as int, w) {
                assert(t.subrange(0, w.len() as int)[0] == t[0]);
            }
        }
        assert(descriptor_words(DescriptorWords::No1)[1] == "no1"@);
        assert(matches_at(t, 0, t.len() as int, descriptor_words(DescriptorWords::No1)[1])) by {
            assert(t.subrange(0, 3) =~= seq!['n', 'o', '1']);
            assert(descriptor_words(DescriptorWords::No1)[1] =~= seq!['n', 'o', '1']);
        }
        lemma_first_match_at(t, 0, t.len() as int, descriptor_words(DescriptorWords::No1), 1);
        let x = st.spec.omission_bits;
        assert(bit16(x | (1u16 << 0u16), 0u16)) by (bit_vector);
    } else if k == 1 {
        assert(h[0] == 'n' && h[1] == 'o' && h[2] == '3');
        assert(!matches_at(t, 0, t.len() as int, descriptor_words(DescriptorWords::HalfDiminishedSeventh)[0])) by {
            let w = descriptor_words(DescriptorWords::HalfDiminishedSeventh)[0];
            assert(w == "\u{f8}7"@);
            if matches_at(t, 0, t.len() as int, w) {
                assert(t.subrange(0, w.len() as int)[0] == t[0]);
            }
        }
        assert(!matches_at(t, 0, t.len() as int, descriptor_words(DescriptorWords::HalfDiminishedSeventh)[1])) by {
            let w = descriptor_words(DescriptorWords::HalfDiminishedSeventh)[1];
            assert(w == "\u{d8}7"@);
            if matches_at(t, 0, t.len() as int, w) {
                assert(t.subrange(0, w.len() as int)[0] == t[0]);
            }
        }
        lemma_first_match_none(t, 0, t.len() as int, descriptor_words(DescriptorWords::HalfDiminishedSeventh));
        assert(!matches_at(t, 0, t.len() as int, descriptor_words(DescriptorWords::HalfDiminished)[0])) by {
            let w = descriptor_words(DescriptorWords::HalfDiminished)[0];
            assert(w == "\u{f8}"@);
            if matches_at(t, 0, t.len() as int, w) {
                assert(t.subrange(0, w.len() as int)[0] == t[0]);
            }
        }
        assert(!matches_at(t, 0, t.len() as int, descriptor_words(DescriptorWords::HalfDiminished)[1])) by {
            let w = descriptor_words(DescriptorWords::HalfDiminished)[1];
            assert(w == "\u{d8}"@);
            if matches_at(t, 0, t.len() as int, w) {
                assert(t.subrange(0, w.len() as int)[0] == t[0]);
            }
        }
        lemma_first_match_none(t, 0, t.len() as int, descriptor_words(DescriptorWords::HalfDiminished));
        assert(!matches_at(t, 0, t.len() as int, descriptor_words(DescriptorWords::Alt)[0])) by {
            let w = descriptor_words(DescriptorWords::Alt)[0];
            assert(w == "alt"@);
            if matches_at(t, 0, t.len() as int, w) {
                assert(t.subrange(0, w.len() as int)[0] == t[0]);
            }
        }
        assert(!matches_at(t, 0, t.len() as int, descriptor_words(DescriptorWords::Alt)[1])) by {
            let w = descriptor_words(DescriptorWords::Alt)[1];
            assert(w == "Alt"@);
            if matches_at(t, 0, t.len() as int, w) {
                assert(t.subrange(0, w.len() as int)[0] == t[0]);
            }
        }
        assert(!matches_at(t, 0, t.len() as int, descriptor_words(DescriptorWords::Alt)[2])) by {
            let w = descriptor_words(DescriptorWords::Alt)[2];
            assert(w == "ALT"@);
            if matches_at(t, 0, t.len() as int, w) {
                assert(t.subrange(0, w.len() as int)[0] == t[0]);
            }
        }
        lemma_first_match_none(t, 0, t.len() as int, descriptor_words(DescriptorWords::Alt));
        assert(!matches_at(t, 0, t.len() as int, descriptor_words(DescriptorWords::Major13)[0])) by {
            let w = descriptor_words(DescriptorWords::Major13)[0];
            assert(w == "maj13"@);
            if matches_at(t, 0, t.len() as int, w) {
                assert(t.subrange(0, w.len() as int)[0] == t[0]);
            }
        }
        assert(!matches_at(t, 0, t.len() as int, descriptor_words(DescriptorWords::Major13)[1])) by {
            let w = descriptor_words(DescriptorWords::Major13)[1];
            assert(w == "Maj13"@);
            if matches_at(t, 0, t.len() as int, w) {
                assert(t.subrange(0, w.len() as int)[0] == t[0]);
            }
        }
        assert(!matches_at(t, 0, t.len() as int, descriptor_words(DescriptorWords::Major13)[2])) by {
            let w = descriptor_words(DescriptorWords::Major13)[2];
            assert(w == "MAJ13"@);
            if matches_at(t, 0, t.len() as int, w) {
                assert(t.subrange(0, w.len() as int)[0] == t[0]);
            }
        }
        assert(!matches_at(t, 0, t.len() as int, descriptor_words(DescriptorWords::Major13)[3])) by {
            let w = descriptor_words(DescriptorWords::Major13)[3];
            assert(w == "M13"@);
            if matches_at(t, 0, t.len() as int, w) {
                assert(t.subrange(0, w.len() as int)[0] == t[0]);
            }
        }
        assert(!matches_at(t, 0, t.len() as int, descriptor_words(DescriptorWords::Major13)[4])) by {
            let w = descriptor_words(DescriptorWords::Major13)[4];
            assert(w == "\u{394}13"@);
            if matches_at(t, 0, t.len() as int, w) {
                assert(t.subrange(0, w.len() as int)[0] == t[0]);
            }
        }
        assert(!matches_at(t, 0, t.len() as int, descriptor_words(DescriptorWords::Major13)[5])) by {
            let w = descriptor_words(DescriptorWords::Major13)[5];
            assert(w == "\u{25b3}13"@);
            if matches_at(t, 0, t.len() as int, w) {
                assert(t.subrange(0, w.len() as int)[0] == t[0]);
            }
        }
        lemma_first_match_none(t, 0, t.len() as int, descriptor_words(DescriptorWords::Major13));
        assert(!matches_at(t, 0, t.len() as int, descriptor_words(DescriptorWords::Major11)[0])) by {
            let w = descriptor_words(DescriptorWords::Major11)[0];
            assert(w == "maj11"@);
            if matches_at(t, 0, t.len() as int, w) {
                assert(t.subrange(0, w.len() as int)[0] == t[0]);
            }
        }
        assert(!matches_at(t, 0, t.len() as int, descriptor_words(DescriptorWords::Major11)[1])) by {
            let w = descriptor_words(DescriptorWords::Major11)[1];
            assert(w == "Maj11"@);
            if matches_at(t, 0, t.len() as int, w) {
                assert(t.subrange(0, w.len() as int)[0] == t[0]);
            }
        }
        assert(!matches_at(t, 0, t.len() as int, descriptor_words(DescriptorWords::Major11)[2])) by {
            let w = descriptor_words(DescriptorWords::Major11)[2];
            assert(w == "MAJ11"@);
            if matches_at(t, 0, t.len() as int, w) {
                assert(t.subrange(0, w.len() as int)[0] == t[0]);
            }
        }
        assert(!matches_at(t, 0, t.len() as int, descriptor_words(DescriptorWords::Major11)[3])) by {
            let w = descriptor_words(DescriptorWords::Major11)[3];
            assert(w == "M11"@);
            if matches_at(t, 0, t.len() as int, w) {
                assert(t.subrange(0, w.len() as int)[0] == t[0]);
            }
        }
        assert(!matches_at(t, 0, t.len() as int, descriptor_words(DescriptorWords::Major11)[4])) by {
            let w = descriptor_words(DescriptorWords::Major11)[4];
            assert(w == "\u{394}11"@);
            if matches_at(t, 0, t.len() as int, w) {
                assert(t.subrange(0, w.len() as int)[0] == t[0]);
            }
        }
        assert(!matches_at(t, 0, t.len() as int, descriptor_words(DescriptorWords::Major11)[5])) by {
            let w = descriptor_words(DescriptorWords::Major11)[5];
            assert(w == "\u{25b3}11"@);
            if matches_at(t, 0, t.len() as int, w) {
                assert(t.subrange(0, w.len() as int)[0] == t[0]);
            }
        }
        lemma_first_match_none(t, 0, t.len() as int, descriptor_words(DescriptorWords::Major11));
        assert(!matches_at(t, 0, t.len() as int, descriptor_words(DescriptorWords::Major9)[0])) by {
            let w = descriptor_words(DescriptorWords::Major9)[0];
            assert(w == "maj9"@);
            if matches_at(t, 0, t.len() as int, w) {
                assert(t.subrange(0, w.len() as int)[0] == t[0]);
            }
        }
        assert(!matches_at(t, 0, t.len() as int, descriptor_words(DescriptorWords::Major9)[1])) by {
            let w = descriptor_words(DescriptorWords::Major9)[1];
            assert(w == "Maj9"@);
            if matches_at(t, 0, t.len() as int, w) {
                assert(t.subrange(0, w.len() as int)[0] == t[0]);
            }
        }
        assert(!matches_at(t, 0, t.len() as int, descriptor_words(DescriptorWords::Major9)[2])) by {
            let w = descriptor_words(DescriptorWords::Major9)[2];
            assert(w == "MAJ9"@);
            if matches_at(t, 0, t.len() as int, w) {
                assert(t.subrange(0, w.len() as int)[0] == t[0]);
            }
        }
        assert(!matches_at(t, 0, t.len() as int, descriptor_words(DescriptorWords::Major9)[3])) by {
            let w = descriptor_words(DescriptorWords::Major9)[3];
            assert(w == "M9"@);
            if matches_at(t, 0, t.len() as int, w) {
                assert(t.subrange(0, w.len() as int)[0] == t[0]);
            }
        }
        assert(!matches_at(t, 0, t.len() as int, descriptor_words(DescriptorWords::Major9)[4])) by {
            let w = descriptor_words(DescriptorWords::Major9)[4];
            assert(w == "\u{394}9"@);
            if matches_at(t, 0, t.len() as int, w) {
                assert(t.subrange(0, w.len() as int)[0] == t[0]);
            }
        }
        assert(!matches_at(t, 0, t.len() as int, descriptor_words(DescriptorWords::Major9)[5])) by {
            let w = descriptor_words(DescriptorWords::Major9)[5];
            assert(w == "\u{25b3}9"@);
            if matches_at(t, 0, t.len() as int, w) {
                assert(t.subrange(0, w.len() as int)[0] == t[0]);
            }
        }
        lemma_first_match_none(t, 0, t.len() as int, descriptor_words(DescriptorWords::Major9));
        assert(!matches_at(t, 0, t.len() as int, descriptor_words(DescriptorWords::Major7)[0])) by {
            let w = descriptor_words(DescriptorWords::Major7)[0];
            assert(w == "maj7"@);
            if matches_at(t, 0, t.len() as int, w) {
                assert(t.subrange(0, w.len() as int)[0] == t[0]);
            }
        }
        assert(!matches_at(t, 0, t.len() as int, descriptor_words(DescriptorWords::Major7)[1])) by {
            let w = descriptor_words(DescriptorWords::Major7)[1];
            assert(w == "Maj7"@);
            if matches_at(t, 0, t.len() as int, w) {
                assert(t.subrange(0, w.len() as int)[0] == t[0]);
            }
        }
        assert(!matches_at(t, 0, t.len() as int, descriptor_words(DescriptorWords::Major7)[2])) by {
            let w = descriptor_words(DescriptorWords::Major7)[2];
            assert(w == "MAJ7"@);
            if matches_at(t, 0, t.len() as int, w) {
                assert(t.subrange(0, w.len() as int)[0] == t[0]);
            }
        }
        assert(!matches_at(t, 0, t.len() as int, descriptor_words(DescriptorWords::Major7)[3])) by {
            let w = descriptor_words(DescriptorWords::Major7)[3];
            assert(w == "M7"@);
            if matches_at(t, 0, t.len() as int, w) {
                assert(t.subrange(0, w.len() as int)[0] == t[0]);
            }
        }
        assert(!matches_at(t, 0, t.len() as int, descriptor_words(DescriptorWords::Major7)[4])) by {
            let w = descriptor_words(DescriptorWords::Major7)[4];
            assert(w == "\u{394}7"@);
            if matches_at(t, 0, t.len() as int, w) {
                assert(t.subrange(0, w.len() as int)[0] == t[0]);
            }
        }
        assert(!matches_at(t, 0, t.len() as int, descriptor_words(DescriptorWords::Major7)[5])) by {
            let w = descriptor_words(DescriptorWords::Major7)[5];
            assert(w == "\u{25b3}7"@);
            if matches_at(t, 0, t.len() as int, w) {
                assert(t.subrange(0, w.len() as int)[0] == t[0]);
            }
        }
        assert(!matches_at(t, 0, t.len() as int, descriptor_words(DescriptorWords::Major7)[6])) by {
            let w = descriptor_words(DescriptorWords::Major7)[6];
            assert(w == "\u{394}"@);
            if matches_at(t, 0, t.len() as int, w) {
                assert(t.subrange(0, w.len() as int)[0] == t[0]);
            }
        }
        assert(!matches_at(t, 0, t.len() as int, descriptor_words(DescriptorWords::Major7)[7])) by {
            let w = descriptor_words(DescriptorWords::Major7)[7];
            assert(w == "\u{25b3}"@);
            if matches_at(t, 0, t.len() as int, w) {
                assert(t.subrange(0, w.len() as int)[0] == t[0]);
            }
        }
        lemma_first_match_none(t, 0, t.len() as int, descriptor_words(DescriptorWords::Major7));
        assert(!matches_at(t, 0, t.len() as int, descriptor_words(DescriptorWords::Sus2)[0])) by {
            let w = descriptor_words(DescriptorWords::Sus2)[0];
            assert(w == "sus2"@);
            if matches_at(t, 0, t.len() as int, w) {
                assert(t.subrange(0, w.len() as int)[0] == t[0]);
            }
        }
        assert(!matches_at(t, 0, t.len() as int, descriptor_words(DescriptorWords::Sus2)[1])) by {
            let w = descriptor_words(DescriptorWords::Sus2)[1];
            assert(w == "Sus2"@);
            if matches_at(t, 0, t.len() as int, w) {
                assert(t.subrange(0, w.len() as int)[0] == t[0]);
            }
        }
        assert(!matches_at(t, 0, t.len() as int, descriptor_words(DescriptorWords::Sus2)[2])) by {
            let w = descriptor_words(DescriptorWords::Sus2)[2];
            assert(w == "SUS2"@);
            if matches_at(t, 0, t.len() as int, w) {
                assert(t.subrange(0, w.len() as int)[0] == t[0]);
            }
        }
        lemma_first_match_none(t, 0, t.len() as int, descriptor_words(DescriptorWords::Sus2));
        assert(!matches_at(t, 0, t.len() as int, descriptor_words(DescriptorWords::Sus4)[0])) by {
            let w = descriptor_words(DescriptorWords::Sus4)[0];
            assert(w == "sus4"@);
            if matches_at(t, 0, t.len() as int, w) {
                assert(t.subrange(0, w.len() as int)[0] == t[0]);
            }
        }
        assert(!matches_at(t, 0, t.len() as int, descriptor_words(DescriptorWords::Sus4)[1])) by {
            let w = descriptor_words(DescriptorWords::Sus4)[1];
            assert(w == "Sus4"@);
            if matches_at(t, 0, t.len() as int, w) {
                assert(t.subrange(0, w.len() as int)[0] == t[0]);
            }
        }
        assert(!matches_at(t, 0, t.len() as int, descriptor_words(DescriptorWords::Sus4)[2])) by {
            let w = descriptor_words(DescriptorWords::Sus4)[2];
            assert(w == "SUS4"@);
            if matches_at(t, 0, t.len() as int, w) {
                assert(t.subrange(0, w.len() as int)[0] == t[0]);
            }
        }
        assert(!matches_at(t, 0, t.len() as int, descriptor_words(DescriptorWords::Sus4)[3])) by {
            let w = descriptor_words(DescriptorWords::Sus4)[3];
            assert(w == "sus"@);
            if matches_at(t, 0, t.len() as int, w) {
                assert(t.subrange(0, w.len() as int)[0] == t[0]);
            }
        }
        assert(!matches_at(t, 0, t.len() as int, descriptor_words(DescriptorWords::Sus4)[4])) by {
            let w = descriptor_words(DescriptorWords::Sus4)[4];
            assert(w == "Sus"@);
            if matches_at(t, 0, t.len() as int, w) {
                assert(t.subrange(0, w.len() as int)[0] == t[0]);
            }
        }
        assert(!matches_at(t, 0, t.len() as int, descriptor_words(DescriptorWords::Sus4)[5])) by {
            let w = descriptor_words(DescriptorWords::Sus4)[5];
            assert(w == "SUS"@);
            if matches_at(t, 0, t.len() as int, w) {
                assert(t.subrange(0, w.len() as int)[0] == t[0]);
            }
        }
        lemma_first_match_none(t, 0, t.len() as int, descriptor_words(DescriptorWords::Sus4));
        assert(!matches_at(t, 0, t.len() as int, descriptor_words(DescriptorWords::Add13)[0])) by {
            let w = descriptor_words(DescriptorWords::Add13)[0];
            assert(w == "add13"@);
            if matches_at(t, 0, t.len() as int, w) {
                assert(t.subrange(0, w.len() as int)[0] == t[0]);
            }
        }
        lemma_first_match_none(t, 0, t.len() as int, descriptor_words(DescriptorWords::Add13));
        assert(!matches_at(t, 0, t.len() as int, descriptor_words(DescriptorWords::Add11)[0])) by {
            let w = descriptor_words(DescriptorWords::Add11)[0];
            assert(w == "add11"@);
            if matches_at(t, 0, t.len() as int, w) {
                assert(t.subrange(0, w.len() as int)[0] == t[0]);
            }
        }
        assert(!matches_at(t, 0, t.len() as int, descriptor_words(DescriptorWords::Add11)[1])) by {
            let w = descriptor_words(DescriptorWords::Add11)[1];
            assert(w == "add4"@);
            if matches_at(t, 0, t.len() as int, w) {
                assert(t.subrange(0, w.len() as int)[0] == t[0]);
            }
        }
        lemma_first_match_none(t, 0, t.len() as int, descriptor_words(DescriptorWords::Add11));
        assert(!matches_at(t, 0, t.len() as int, descriptor_words(DescriptorWords::Add9)[0])) by {
            let w = descriptor_words(DescriptorWords::Add9)[0];
            assert(w == "add9"@);
            if matches_at(t, 0, t.len() as int, w) {
                assert(t.subrange(0, w.len() as int)[0] == t[0]);
            }
        }
        assert(!matches_at(t, 0, t.len() as int, descriptor_words(DescriptorWords::Add9)[1])) by {
            let w = descriptor_words(DescriptorWords::Add9)[1];
            assert(w == "add2"@);
            if matches_at(t, 0, t.len() as int, w) {
                assert(t.subrange(0, w.len() as int)[0] == t[0]);
            }
        }
        lemma_first_match_none(t, 0, t.len() as int, descriptor_words(DescriptorWords::Add9));
        assert(!matches_at(t, 0, t.len() as int, descriptor_words(DescriptorWords::No5)[0])) by {
            let w = descriptor_words(DescriptorWords::No5)[0];
            assert(w == "omit5"@);
            if matches_at(t, 0, t.len() as int, w) {
                assert(t.subrange(0, w.len() as int)[0] == t[0]);
            }
        }
        assert(!matches_at(t, 0, t.len() as int, descriptor_words(DescriptorWords::No5)[1])) by {
            let w = descriptor_words(DescriptorWords::No5)[1];
            assert(w == "no5"@);
            if matches_at(t, 0, t.len() as int, w) {
                assert(t.subrange(0, w.len() as int)[2] == t[2]);
            }
        }
        lemma_first_match_none(t, 0, t.len() as int, descriptor_words(DescriptorWords::No5));
        assert(!matches_at(t, 0, t.len() as int, descriptor_words(DescriptorWords::No3)[0])) by {
            let w = descriptor_words(DescriptorWords::No3)[0];
            assert(w == "omit3"@);
            if matches_at(t, 0, t.len() as int, w) {
                assert(t.subrange(0, w.len() as int)[0] == t[0]);
            }
        }
        assert(descriptor_words(DescriptorWords::No3)[1] == "no3"@);
        assert(matches_at(t, 0, t.len() as int, descriptor_words(DescriptorWords::No3)[1])) by {
            assert(t.subrange(0, 3) =~= seq!['n', 'o', '3']);
            assert(descriptor_words(DescriptorWords::No3)[1] =~= seq!['n', 'o', '3']);
        }
        lemma_first_match_at(t, 0, t.len() as int, descriptor_words(DescriptorWords::No3), 1);
        let x = st.spec.omission_bits;
        assert(bit16(x | (1u16 << 1u16), 1u16)) by (bit_vector);
    } else if k == 2 {
        assert(h[0] == 'n' && h[1] == 'o' && h[2] == '5');
        assert(!matches_at(t, 0, t.len() as int, descriptor_words(DescriptorWords::HalfDiminishedSeventh)[0])) by {
            let w = descriptor_words(DescriptorWords::HalfDiminishedSeventh)[0];
            assert(w == "\u{f8}7"@);
            if matches_at(t, 0, t.len() as int, w) {
                assert(t.subrange(0, w.len() as int)[0] == t[0]);
            }
        }
        assert(!matches_at(t, 0, t.len() as int, descriptor_words(DescriptorWords::HalfDiminishedSeventh)[1])) by {
            let w = descriptor_words(DescriptorWords::HalfDiminishedSeventh)[1];
            assert(w == "\u{d8}7"@);
            if matches_at(t, 0, t.len() as int, w) {
                assert(t.subrange(0, w.len() as int)[0] == t[0]);
            }
        }
        lemma_first_match_none(t, 0, t.len() as int, descriptor_words(DescriptorWords::HalfDiminishedSeventh));
        assert(!matches_at(t, 0, t.len() as int, descriptor_words(DescriptorWords::HalfDiminished)[0])) by {
            let w = descriptor_words(DescriptorWords::HalfDiminished)[0];
            assert(w == "\u{f8}"@);
            if matches_at(t, 0, t.len() as int, w) {
                assert(t.subrange(0, w.len() as int)[0] == t[0]);
            }
        }
        assert(!matches_at(t, 0, t.len() as int, descriptor_words(DescriptorWords::HalfDiminished)[1])) by {
            let w = descriptor_words(DescriptorWords::HalfDiminished)[1];
            assert(w == "\u{d8}"@);
            if matches_at(t, 0, t.len() as int, w) {
                assert(t.subrange(0, w.len() as int)[0] == t[0]);
            }
        }
        lemma_first_match_none(t, 0, t.len() as int, descriptor_words(DescriptorWords::HalfDiminished));
        assert(!matches_at(t, 0, t.len() as int, descriptor_words(DescriptorWords::Alt)[0])) by {
            let w = descriptor_words(DescriptorWords::Alt)[0];
            assert(w == "alt"@);
            if matches_at(t, 0, t.len() as int, w) {
                assert(t.subrange(0, w.len() as int)[0] == t[0]);
            }
        }
        assert(!matches_at(t, 0, t.len() as int, descriptor_words(DescriptorWords::Alt)[1])) by {
            let w = descriptor_words(DescriptorWords::Alt)[1];
            assert(w == "Alt"@);
            if matches_at(t, 0, t.len() as int, w) {
                assert(t.subrange(0, w.len() as int)[0] == t[0]);
            }
        }
        assert(!matches_at(t, 0, t.len() as int, descriptor_words(DescriptorWords::Alt)[2])) by {
            let w = descriptor_words(DescriptorWords::Alt)[2];
            assert(w == "ALT"@);
            if matches_at(t, 0, t.len() as int, w) {
                assert(t.subrange(0, w.len() as int)[0] == t[0]);
            }
        }
        lemma_first_match_none(t, 0, t.len() as int, descriptor_words(DescriptorWords::Alt));
        assert(!matches_at(t, 0, t.len() as int, descriptor_words(DescriptorWords::Major13)[0])) by {
            let w = descriptor_words(DescriptorWords::Major13)[0];
            assert(w == "maj13"@);
            if matches_at(t, 0, t.len() as int, w) {
                assert(t.subrange(0, w.len() as int)[0] == t[0]);
            }
        }
        assert(!matches_at(t, 0, t.len() as int, descriptor_words(DescriptorWords::Major13)[1])) by {
            let w = descriptor_words(DescriptorWords::Major13)[1];
            assert(w == "Maj13"@);
            if matches_at(t, 0, t.len() as int, w) {
                assert(t.subrange(0, w.len() as int)[0] == t[0]);
            }
        }
        assert(!matches_at(t, 0, t.len() as int, descriptor_words(DescriptorWords::Major13)[2])) by {
            let w = descriptor_words(DescriptorWords::Major13)[2];
            assert(w == "MAJ13"@);
            if matches_at(t, 0, t.len() as int, w) {
                assert(t.subrange(0, w.len() as int)[0] == t[0]);
            }
        }
        assert(!matches_at(t, 0, t.len() as int, descriptor_words(DescriptorWords::Major13)[3])) by {
            let w = descriptor_words(DescriptorWords::Major13)[3];
            assert(w == "M13"@);
            if matches_at(t, 0, t.len() as int, w) {
                assert(t.subrange(0, w.len() as int)[0] == t[0]);
            }
        }
        assert(!matches_at(t, 0, t.len() as int, descriptor_words(DescriptorWords::Major13)[4])) by {
            let w = descriptor_words(DescriptorWords::Major13)[4];
            assert(w == "\u{394}13"@);
            if matches_at(t, 0, t.len() as int, w) {
                assert(t.subrange(0, w.len() as int)[0] == t[0]);
            }
        }
        assert(!matches_at(t, 0, t.len() as int, descriptor_words(DescriptorWords::Major13)[5])) by {
            let w = descriptor_words(DescriptorWords::Major13)[5];
            assert(w == "\u{25b3}13"@);
            if matches_at(t, 0, t.len() as int, w) {
                assert(t.subrange(0, w.len() as int)[0] == t[0]);
            }
        }
        lemma_first_match_none(t, 0, t.len() as int, descriptor_words(DescriptorWords::Major13));
        assert(!matches_at(t, 0, t.len() as int, descriptor_words(DescriptorWords::Major11)[0])) by {
            let w = descriptor_words(DescriptorWords::Major11)[0];
            assert(w == "maj11"@);
            if matches_at(t, 0, t.len() as int, w) {
                assert(t.subrange(0, w.len() as int)[0] == t[0]);
            }
        }
        assert(!matches_at(t, 0, t.len() as int, descriptor_words(DescriptorWords::Major11)[1])) by {
            let w = descriptor_words(DescriptorWords::Major11)[1];
            assert(w == "Maj11"@);
            if matches_at(t, 0, t.len() as int, w) {
                assert(t.subrange(0, w.len() as int)[0] == t[0]);
            }
        }
        assert(!matches_at(t, 0, t.len() as int, descriptor_words(DescriptorWords::Major11)[2])) by {
            let w = descriptor_words(DescriptorWords::Major11)[2];
            assert(w == "MAJ11"@);
            if matches_at(t, 0, t.len() as int, w) {
                assert(t.subrange(0, w.len() as int)[0] == t[0]);
            }
        }
        assert(!matches_at(t, 0, t.len() as int, descriptor_words(DescriptorWords::Major11)[3])) by {
            let w = descriptor_words(DescriptorWords::Major11)[3];
            assert(w == "M11"@);
            if matches_at(t, 0, t.len() as int, w) {
                assert(t.subrange(0, w.len() as int)[0] == t[0]);
            }
        }
        assert(!matches_at(t, 0, t.len() as int, descriptor_words(DescriptorWords::Major11)[4])) by {
            let w = descriptor_words(DescriptorWords::Major11)[4];
            assert(w == "\u{394}11"@);
            if matches_at(t, 0, t.len() as int, w) {
                assert(t.subrange(0, w.len() as int)[0] == t[0]);
            }
        }
        assert(!matches_at(t, 0, t.len() as int, descriptor_words(DescriptorWords::Major11)[5])) by {
            let w = descriptor_words(DescriptorWords::Major11)[5];
            assert(w == "\u{25b3}11"@);
            if matches_at(t, 0, t.len() as int, w) {
                assert(t.subrange(0, w.len() as int)[0] == t[0]);
            }
        }
        lemma_first_match_none(t, 0, t.len() as int, descriptor_words(DescriptorWords::Major11));
        assert(!matches_at(t, 0, t.len() as int, descriptor_words(DescriptorWords::Major9)[0])) by {
            let w = descriptor_words(DescriptorWords::Major9)[0];
            assert(w == "maj9"@);
            if matches_at(t, 0, t.len() as int, w) {
                assert(t.subrange(0, w.len() as int)[0] == t[0]);
            }
        }
        assert(!matches_at(t, 0, t.len() as int, descriptor_words(DescriptorWords::Major9)[1])) by {
            let w = descriptor_words(DescriptorWords::Major9)[1];
            assert(w == "Maj9"@);
            if matches_at(t, 0, t.len() as int, w) {
                assert(t.subrange(0, w.len() as int)[0] == t[0]);
            }
        }
        assert(!matches_at(t, 0, t.len() as int, descriptor_words(DescriptorWords::Major9)[2])) by {
            let w = descriptor_words(DescriptorWords::Major9)[2];
            assert(w == "MAJ9"@);
            if matches_at(t, 0, t.len() as int, w) {
                assert(t.subrange(0, w.len() as int)[0] == t[0]);
            }
        }
        assert(!matches_at(t, 0, t.len() as int, descriptor_words(DescriptorWords::Major9)[3])) by {
            let w = descriptor_words(DescriptorWords::Major9)[3];
            assert(w == "M9"@);
            if matches_at(t, 0, t.len() as int, w) {
                assert(t.subrange(0, w.len() as int)[0] == t[0]);
            }
        }
        assert(!matches_at(t, 0, t.len() as int, descriptor_words(DescriptorWords::Major9)[4])) by {
            let w = descriptor_words(DescriptorWords::Major9)[4];
            assert(w == "\u{394}9"@);
            if matches_at(t, 0, t.len() as int, w) {
                assert(t.subrange(0, w.len() as int)[0] == t[0]);
            }
        }
        assert(!matches_at(t, 0, t.len() as int, descriptor_words(DescriptorWords::Major9)[5])) by {
            let w = descriptor_words(DescriptorWords::Major9)[5];
            assert(w == "\u{25b3}9"@);
            if matches_at(t, 0, t.len() as int, w) {
                assert(t.subrange(0, w.len() as int)[0] == t[0]);
            }
        }
        lemma_first_match_none(t, 0, t.len() as int, descriptor_words(DescriptorWords::Major9));
        assert(!matches_at(t, 0, t.len() as int, descriptor_words(DescriptorWords::Major7)[0])) by {
            let w = descriptor_words(DescriptorWords::Major7)[0];
            assert(w == "maj7"@);
            if matches_at(t, 0, t.len() as int, w) {
                assert(t.subrange(0, w.len() as int)[0] == t[0]);
            }
        }
        assert(!matches_at(t, 0, t.len() as int, descriptor_words(DescriptorWords::Major7)[1])) by {
            let w = descriptor_words(DescriptorWords::Major7)[1];
            assert(w == "Maj7"@);
            if matches_at(t, 0, t.len() as int, w) {
                assert(t.subrange(0, w.len() as int)[0] == t[0]);
            }
        }
        assert(!matches_at(t, 0, t.len() as int, descriptor_words(DescriptorWords::Major7)[2])) by {
            let w = descriptor_words(DescriptorWords::Major7)[2];
            assert(w == "MAJ7"@);
            if matches_at(t, 0, t.len() as int, w) {
                assert(t.subrange(0, w.len() as int)[0] == t[0]);
            }
        }
        assert(!matches_at(t, 0, t.len() as int, descriptor_words(DescriptorWords::Major7)[3])) by {
            let w = descriptor_words(DescriptorWords::Major7)[3];
            assert(w == "M7"@);
            if matches_at(t, 0, t.len() as int, w) {
                assert(t.subrange(0, w.len() as int)[0] == t[0]);
            }
        }
        assert(!matches_at(t, 0, t.len() as int, descriptor_words(DescriptorWords::Major7)[4])) by {
            let w = descriptor_words(DescriptorWords::Major7)[4];
            assert(w == "\u{394}7"@);
            if matches_at(t, 0, t.len() as int, w) {
                assert(t.subrange(0, w.len() as int)[0] == t[0]);
            }
        }
        assert(!matches_at(t, 0, t.len() as int, descriptor_words(DescriptorWords::Major7)[5])) by {
            let w = descriptor_words(DescriptorWords::Major7)[5];
            assert(w == "\u{25b3}7"@);
            if matches_at(t, 0, t.len() as int, w) {
                assert(t.subrange(0, w.len() as int)[0] == t[0]);
            }
        }
        assert(!matches_at(t, 0, t.len() as int, descriptor_words(DescriptorWords::Major7)[6])) by {
            let w = descriptor_words(DescriptorWords::Major7)[6];
            assert(w == "\u{394}"@);
            if matches_at(t, 0, t.len() as int, w) {
                assert(t.subrange(0, w.len() as int)[0] == t[0]);
            }
        }
        assert(!matches_at(t, 0, t.len() as int, descriptor_words(DescriptorWords::Major7)[7])) by {
            let w = descriptor_words(DescriptorWords::Major7)[7];
            assert(w == "\u{25b3}"@);
            if matches_at(t, 0, t.len() as int, w) {
                assert(t.subrange(0, w.len() as int)[0] == t[0]);
            }
        }
        lemma_first_match_none(t, 0, t.len() as int, descriptor_words(DescriptorWords::Major7));
        assert(!matches_at(t, 0, t.len() as int, descriptor_words(DescriptorWords::Sus2)[0])) by {
            let w = descriptor_words(DescriptorWords::Sus2)[0];
            assert(w == "sus2"@);
            if matches_at(t, 0, t.len() as int, w) {
                assert(t.subrange(0, w.len() as int)[0] == t[0]);
            }
        }
        assert(!matches_at(t, 0, t.len() as int, descriptor_words(DescriptorWords::Sus2)[1])) by {
            let w = descriptor_words(DescriptorWords::Sus2)[1];
            assert(w == "Sus2"@);
            if matches_at(t, 0, t.len() as int, w) {
                assert(t.subrange(0, w.len() as int)[0] == t[0]);
            }
        }
        assert(!matches_at(t, 0, t.len() as int, descriptor_words(DescriptorWords::Sus2)[2])) by {
            let w = descriptor_words(DescriptorWords::Sus2)[2];
            assert(w == "SUS2"@);
            if matches_at(t, 0, t.len() as int, w) {
                assert(t.subrange(0, w.len() as int)[0] == t[0]);
            }
        }
        lemma_first_match_none(t, 0, t.len() as int, descriptor_words(DescriptorWords::Sus2));
        assert(!matches_at(t, 0, t.len() as int, descriptor_words(DescriptorWords::Sus4)[0])) by {
            let w = descriptor_words(DescriptorWords::Sus4)[0];
            assert(w == "sus4"@);
            if matches_at(t, 0, t.len() as int, w) {
                assert(t.subrange(0, w.len() as int)[0] == t[0]);
            }
        }
        assert(!matches_at(t, 0, t.len() as int, descriptor_words(DescriptorWords::Sus4)[1])) by {
            let w = descriptor_words(DescriptorWords::Sus4)[1];
            assert(w == "Sus4"@);
            if matches_at(t, 0, t.len() as int, w) {
                assert(t.subrange(0, w.len() as int)[0] == t[0]);
            }
        }
        assert(!matches_at(t, 0, t.len() as int, descriptor_words(DescriptorWords::Sus4)[2])) by {
            let w = descriptor_words(DescriptorWords::Sus4)[2];
            assert(w == "SUS4"@);
            if matches_at(t, 0, t.len() as int, w) {
                assert(t.subrange(0, w.len() as int)[0] == t[0]);
            }
        }
        assert(!matches_at(t, 0, t.len() as int, descriptor_words(DescriptorWords::Sus4)[3])) by {
            let w = descriptor_words(DescriptorWords::Sus4)[3];
            assert(w == "sus"@);
            if matches_at(t, 0, t.len() as int, w) {
                assert(t.subrange(0, w.len() as int)[0] == t[0]);
            }
        }
        assert(!matches_at(t, 0, t.len() as int, descriptor_words(DescriptorWords::Sus4)[4])) by {
            let w = descriptor_words(DescriptorWords::Sus4)[4];
            assert(w == "Sus"@);
            if matches_at(t, 0, t.len() as int, w) {
                assert(t.subrange(0, w.len() as int)[0] == t[0]);
            }
        }
        assert(!matches_at(t, 0, t.len() as int, descriptor_words(DescriptorWords::Sus4)[5])) by {
            let w = descriptor_words(DescriptorWords::Sus4)[5];
            assert(w == "SUS"@);
            if matches_at(t, 0, t.len() as int, w) {
                assert(t.subrange(0, w.len() as int)[0] == t[0]);
            }
        }
        lemma_first_match_none(t, 0, t.len() as int, descriptor_words(DescriptorWords::Sus4));
        assert(!matches_at(t, 0, t.len() as int, descriptor_words(DescriptorWords::Add13)[0])) by {
            let w = descriptor_words(DescriptorWords::Add13)[0];
            assert(w == "add13"@);
            if matches_at(t, 0, t.len() as int, w) {
                assert(t.subrange(0, w.len() as int)[0] == t[0]);
            }
        }
        lemma_first_match_none(t, 0, t.len() as int, descriptor_words(DescriptorWords::Add13));
        assert(!matches_at(t, 0, t.len() as int, descriptor_words(DescriptorWords::Add11)[0])) by {
            let w = descriptor_words(DescriptorWords::Add11)[0];
            assert(w == "add11"@);
            if matches_at(t, 0, t.len() as int, w) {
                assert(t.subrange(0, w.len() as int)[0] == t[0]);
            }
        }
        assert(!matches_at(t, 0, t.len() as int, descriptor_words(DescriptorWords::Add11)[1])) by {
            let w = descriptor_words(DescriptorWords::Add11)[1];
            assert(w == "add4"@);
            if matches_at(t, 0, t.len() as int, w) {
                assert(t.subrange(0, w.len() as int)[0] == t[0]);
            }
        }
        lemma_first_match_none(t, 0, t.len() as int, descriptor_words(DescriptorWords::Add11));
        assert(!matches_at(t, 0, t.len() as int, descriptor_words(DescriptorWords::Add9)[0])) by {
            let w = descriptor_words(DescriptorWords::Add9)[0];
            assert(w == "add9"@);
            if matches_at(t, 0, t.len() as int, w) {
                assert(t.subrange(0, w.len() as int)[0] == t[0]);
            }
        }
        assert(!matches_at(t, 0, t.len() as int, descriptor_words(DescriptorWords::Add9)[1])) by {
            let w = descriptor_words(DescriptorWords::Add9)[1];
            assert(w == "add2"@);
            if matches_at(t, 0, t.len() as int, w) {
                assert(t.subrange(0, w.len() as int)[0] == t[0]);
            }
        }
        lemma_first_match_none(t, 0, t.len() as int, descriptor_words(DescriptorWords::Add9));
        assert(!matches_at(t, 0, t.len() as int, descriptor_words(DescriptorWords::No5)[0])) by {
            let w = descriptor_words(DescriptorWords::No5)[0];
            assert(w == "omit5"@);
            if matches_at(t, 0, t.len() as int, w) {
                assert(t.subrange(0, w.len() as int)[0] == t[0]);
            }
        }
        assert(descriptor_words(DescriptorWords::No5)[1] == "no5"@);
        assert(matches_at(t, 0, t.len() as int, descriptor_words(DescriptorWords::No5)[1])) by {
            assert(t.subrange(0, 3) =~= seq!['n', 'o', '5']);
            assert(descriptor_words(DescriptorWords::No5)[1] =~= seq!['n', 'o', '5']);
        }
        lemma_first_match_at(t, 0, t.len() as int, descriptor_words(DescriptorWords::No5), 1);
        let x = st.spec.omission_bits;
        assert(bit16(x | (1u16 << 2u16), 2u16)) by (bit_vector);
    }
}

/// Reading back a suspension printed after the numbers: at the start of any
/// text that begins with a spec's deferred `sus2` or `sus4`, the reader
/// finds the word for that suspension, and applying it to any state with no
/// quality written yet gives the spec's quality.
pub proof fn lemma_deferred_sus_reads_back(spec: ChordSpec, t: Seq<char>, st: DescriptorState)
    requires
        deferred_sus_text(spec).len() > 0,
        t.len() >= deferred_sus_text(spec).len(),
        t.subrange(0, deferred_sus_text(spec).len() as int) == deferred_sus_text(spec),
        !st.explicit_quality,
    ensures
        ({
            let found = token_at(t, 0);
            &&& found is Some
            &&& (found->0).1 == 4
            &&& apply_token(st, (found->0).0) is Some
            &&& (apply_token(st, (found->0).0)->0).spec.quality == spec.quality
        }),
{
    reveal(token_at);
    reveal(apply_token);
    reveal_strlit("\u{f8}7");
    reveal_strlit("\u{d8}7");
    reveal_strlit("\u{f8}");
    reveal_strlit("\u{d8}");
    reveal_strlit("alt");
    reveal_strlit("Alt");
    reveal_strlit("ALT");
    reveal_strlit("maj13");
    reveal_strlit("Maj13");
    reveal_strlit("MAJ13");
    reveal_strlit("M13");
    reveal_strlit("\u{394}13");
    reveal_strlit("\u{25b3}13");
    reveal_strlit("maj11");
    reveal_strlit("Maj11");
    reveal_strlit("MAJ11");
    reveal_strlit("M11");
    reveal_strlit("\u{394}11");
    reveal_strlit("\u{25b3}11");
    reveal_strlit("maj9");
    reveal_strlit("Maj9");
    reveal_strlit("MAJ9");
    reveal_strlit("M9");
    reveal_strlit("\u{394}9");
    reveal_strlit("\u{25b3}9");
    reveal_strlit("maj7");
    reveal_strlit("Maj7");
    reveal_strlit("MAJ7");
    reveal_strlit("M7");
    reveal_strlit("\u{394}7");
    reveal_strlit("\u{25b3}7");
    reveal_strlit("\u{394}");
    reveal_strlit("\u{25b3}");
    reveal_strlit("sus2");
    reveal_strlit("Sus2");
    reveal_strlit("SUS2");
    reveal_strlit("sus4");
    reveal_strlit("Sus4");
    reveal_strlit("SUS4");
    reveal_strlit("sus");
    reveal_strlit("Sus");
    reveal_strlit("SUS");
    let h = deferred_sus_text(spec);
    assert forall|j: int| 0 <= j < h.len() implies #[trigger] t[j] == h[j] by {
        assert(t.subrange(0, h.len() as int)[j] == t[j]);
    }
    if spec.quality == Quality::Sus2 {
        assert(h =~= seq!['s', 'u', 's', '2']);
        assert(!matches_at(t, 0, t.len() as int, descriptor_words(DescriptorWords::HalfDiminishedSeventh)[0])) by {
            let w = descriptor_words(DescriptorWords::HalfDiminishedSeventh)[0];
            assert(w == "\u{f8}7"@);
            if matches_at(t, 0, t.len() as int, w) {
                assert(t.subrange(0, w.len() as int)[0] == t[0]);
            }
        }
        assert(!matches_at(t, 0, t.len() as int, descriptor_words(DescriptorWords::HalfDiminishedSeventh)[1])) by {
            let w = descriptor_words(DescriptorWords::HalfDiminishedSeventh)[1];
            assert(w == "\u{d8}7"@);
            if matches_at(t, 0, t.len() as int, w) {
                assert(t.subrange(0, w.len() as int)[0] == t[0]);
            }
        }
        lemma_first_match_none(t, 0, t.len() as int, descriptor_words(DescriptorWords::HalfDiminishedSeventh));
        assert(!matches_at(t, 0, t.len() as int, descriptor_words(DescriptorWords::HalfDiminished)[0])) by {
            let w = descriptor_words(DescriptorWords::HalfDiminished)[0];
            assert(w == "\u{f8}"@);
            if matches_at(t, 0, t.len() as int, w) {
                assert(t.subrange(0, w.len() as int)[0] == t[0]);
            }
        }
        assert(!matches_at(t, 0, t.len() as int, descriptor_words(DescriptorWords::HalfDiminished)[1])) by {
            let w = descriptor_words(DescriptorWords::HalfDiminished)[1];
            assert(w == "\u{d8}"@);
            if matches_at(t, 0, t.len() as int, w) {
                assert(t.subrange(0, w.len() as int)[0] == t[0]);
            }
        }
        lemma_first_match_none(t, 0, t.len() as int, descriptor_words(DescriptorWords::HalfDiminished));
        assert(!matches_at(t, 0, t.len() as int, descriptor_words(DescriptorWords::Alt)[0])) by {
            let w = descriptor_words(DescriptorWords::Alt)[0];
            assert(w == "alt"@);
            if matches_at(t, 0, t.len() as int, w) {
                assert(t.subrange(0, w.len() as int)[0] == t[0]);
            }
        }
        assert(!matches_at(t, 0, t.len() as int, descriptor_words(DescriptorWords::Alt)[1])) by {
            let w = descriptor_words(DescriptorWords::Alt)[1];
            assert(w == "Alt"@);
            if matches_at(t, 0, t.len() as int, w) {
                assert(t.subrange(0, w.len() as int)[0] == t[0]);
            }
        }
        assert(!matches_at(t, 0, t.len() as int, descriptor_words(DescriptorWords::Alt)[2])) by {
            let w = descriptor_words(DescriptorWords::Alt)[2];
            assert(w == "ALT"@);
            if matches_at(t, 0, t.len() as int, w) {
                assert(t.subrange(0, w.len() as int)[0] == t[0]);
            }
        }
        lemma_first_match_none(t, 0, t.len() as int, descriptor_words(DescriptorWords::Alt));
        assert(!matches_at(t, 0, t.len() as int, descriptor_words(DescriptorWords::Major13)[0])) by {
            let w = descriptor_words(DescriptorWords::Major13)[0];
            assert(w == "maj13"@);
            if matches_at(t, 0, t.len() as int, w) {
                assert(t.subrange(0, w.len() as int)[0] == t[0]);
            }
        }
        assert(!matches_at(t, 0, t.len() as int, descriptor_words(DescriptorWords::Major13)[1])) by {
            let w = descriptor_words(DescriptorWords::Major13)[1];
            assert(w == "Maj13"@);
            if matches_at(t, 0, t.len() as int, w) {
                assert(t.subrange(0, w.len() as int)[0] == t[0]);
            }
        }
        assert(!matches_at(t, 0, t.len() as int, descriptor_words(DescriptorWords::Major13)[2])) by {
            let w = descriptor_words(DescriptorWords::Major13)[2];
            assert(w == "MAJ13"@);
            if matches_at(t, 0, t.len() as int, w) {
                assert(t.subrange(0, w.len() as int)[0] == t[0]);
            }
        }
        assert(!matches_at(t, 0, t.len() as int, descriptor_words(DescriptorWords::Major13)[3])) by {
            let w = descriptor_words(DescriptorWords::Major13)[3];
            assert(w == "M13"@);
            if matches_at(t, 0, t.len() as int, w) {
                assert(t.subrange(0, w.len() as int)[0] == t[0]);
            }
        }
        assert(!matches_at(t, 0, t.len() as int, descriptor_words(DescriptorWords::Major13)[4])) by {
            let w = descriptor_words(DescriptorWords::Major13)[4];
            assert(w == "\u{394}13"@);
            if matches_at(t, 0, t.len() as int, w) {
                assert(t.subrange(0, w.len() as int)[0] == t[0]);
            }
        }
        assert(!matches_at(t, 0, t.len() as int, descriptor_words(DescriptorWords::Major13)[5])) by {
            let w = descriptor_words(DescriptorWords::Major13)[5];
            assert(w == "\u{25b3}13"@);
            if matches_at(t, 0, t.len() as int, w) {
                assert(t.subrange(0, w.len() as int)[0] == t[0]);
            }
        }
        lemma_first_match_none(t, 0, t.len() as int, descriptor_words(DescriptorWords::Major13));
        assert(!matches_at(t, 0, t.len() as int, descriptor_words(DescriptorWords::Major11)[0])) by {
            let w = descriptor_words(DescriptorWords::Major11)[0];
            assert(w == "maj11"@);
            if matches_at(t, 0, t.len() as int, w) {
                assert(t.subrange(0, w.len() as int)[0] == t[0]);
            }
        }
        assert(!matches_at(t, 0, t.len() as int, descriptor_words(DescriptorWords::Major11)[1])) by {
            let w = descriptor_words(DescriptorWords::Major11)[1];
            assert(w == "Maj11"@);
            if matches_at(t, 0, t.len() as int, w) {
                assert(t.subrange(0, w.len() as int)[0] == t[0]);
            }
        }
        assert(!matches_at(t, 0, t.len() as int, descriptor_words(DescriptorWords::Major11)[2])) by {
            let w = descriptor_words(DescriptorWords::Major11)[2];
            assert(w == "MAJ11"@);
            if matches_at(t, 0, t.len() as int, w) {
                assert(t.subrange(0, w.len() as int)[0] == t[0]);
            }
        }
        assert(!matches_at(t, 0, t.len() as int, descriptor_words(DescriptorWords::Major11)[3])) by {
            let w = descriptor_words(DescriptorWords::Major11)[3];
            assert(w == "M11"@);
            if matches_at(t, 0, t.len() as int, w) {
                assert(t.subrange(0, w.len() as int)[0] == t[0]);
            }
        }
        assert(!matches_at(t, 0, t.len() as int, descriptor_words(DescriptorWords::Major11)[4])) by {
            let w = descriptor_words(DescriptorWords::Major11)[4];
            assert(w == "\u{394}11"@);
            if matches_at(t, 0, t.len() as int, w) {
                assert(t.subrange(0, w.len() as int)[0] == t[0]);
            }
        }
        assert(!matches_at(t, 0, t.len() as int, descriptor_words(DescriptorWords::Major11)[5])) by {
            let w = descriptor_words(DescriptorWords::Major11)[5];
            assert(w == "\u{25b3}11"@);
            if matches_at(t, 0, t.len() as int, w) {
                assert(t.subrange(0, w.len() as int)[0] == t[0]);
            }
        }
        lemma_first_match_none(t, 0, t.len() as int, descriptor_words(DescriptorWords::Major11));
        assert(!matches_at(t, 0, t.len() as int, descriptor_words(DescriptorWords::Major9)[0])) by {
            let w = descriptor_words(DescriptorWords::Major9)[0];
            assert(w == "maj9"@);
            if matches_at(t, 0, t.len() as int, w) {
                assert(t.subrange(0, w.len() as int)[0] == t[0]);
            }
        }
        assert(!matches_at(t, 0, t.len() as int, descriptor_words(DescriptorWords::Major9)[1])) by {
            let w = descriptor_words(DescriptorWords::Major9)[1];
            assert(w == "Maj9"@);
            if matches_at(t, 0, t.len() as int, w) {
                assert(t.subrange(0, w.len() as int)[0] == t[0]);
            }
        }
        assert(!matches_at(t, 0, t.len() as int, descriptor_words(DescriptorWords::Major9)[2])) by {
            let w = descriptor_words(DescriptorWords::Major9)[2];
            assert(w == "MAJ9"@);
            if matches_at(t, 0, t.len() as int, w) {
                assert(t.subrange(0, w.len() as int)[0] == t[0]);
            }
        }
        assert(!matches_at(t, 0, t.len() as int, descriptor_words(DescriptorWords::Major9)[3])) by {
            let w = descriptor_words(DescriptorWords::Major9)[3];
            assert(w == "M9"@);
            if matches_at(t, 0, t.len() as int, w) {
                assert(t.subrange(0, w.len() as int)[0] == t[0]);
            }
        }
        assert(!matches_at(t, 0, t.len() as int, descriptor_words(DescriptorWords::Major9)[4])) by {
            let w = descriptor_words(DescriptorWords::Major9)[4];
            assert(w == "\u{394}9"@);
            if matches_at(t, 0, t.len() as int, w) {
                assert(t.subrange(0, w.len() as int)[0] == t[0]);
            }
        }
        assert(!matches_at(t, 0, t.len() as int, descriptor_words(DescriptorWords::Major9)[5])) by {
            let w = descriptor_words(DescriptorWords::Major9)[5];
            assert(w == "\u{25b3}9"@);
            if matches_at(t, 0, t.len() as int, w) {
                assert(t.subrange(0, w.len() as int)[0] == t[0]);
            }
        }
        lemma_first_match_none(t, 0, t.len() as int, descriptor_words(DescriptorWords::Major9));
        assert(!matches_at(t, 0, t.len() as int, descriptor_words(DescriptorWords::Major7)[0])) by {
            let w = descriptor_words(DescriptorWords::Major7)[0];
            assert(w == "maj7"@);
            if matches_at(t, 0, t.len() as int, w) {
                assert(t.subrange(0, w.len() as int)[0] == t[0]);
            }
        }
        assert(!matches_at(t, 0, t.len() as int, descriptor_words(DescriptorWords::Major7)[1])) by {
            let w = descriptor_words(DescriptorWords::Major7)[1];
            assert(w == "Maj7"@);
            if matches_at(t, 0, t.len() as int, w) {
                assert(t.subrange(0, w.len() as int)[0] == t[0]);
            }
        }
        assert(!matches_at(t, 0, t.len() as int, descriptor_words(DescriptorWords::Major7)[2])) by {
            let w = descriptor_words(DescriptorWords::Major7)[2];
            assert(w == "MAJ7"@);
            if matches_at(t, 0, t.len() as int, w) {
                assert(t.subrange(0, w.len() as int)[0] == t[0]);
            }
        }
        assert(!matches_at(t, 0, t.len() as int, descriptor_words(DescriptorWords::Major7)[3])) by {
            let w = descriptor_words(DescriptorWords::Major7)[3];
            assert(w == "M7"@);
            if matches_at(t, 0, t.len() as int, w) {
                assert(t.subrange(0, w.len() as int)[0] == t[0]);
            }
        }
        assert(!matches_at(t, 0, t.len() as int, descriptor_words(DescriptorWords::Major7)[4])) by {
            let w = descriptor_words(DescriptorWords::Major7)[4];
            assert(w == "\u{394}7"@);
            if matches_at(t, 0, t.len() as int, w) {
                assert(t.subrange(0, w.len() as int)[0] == t[0]);
            }
        }
        assert(!matches_at(t, 0, t.len() as int, descriptor_words(DescriptorWords::Major7)[5])) by {
            let w = descriptor_words(DescriptorWords::Major7)[5];
            assert(w == "\u{25b3}7"@);
            if matches_at(t, 0, t.len() as int, w) {
                assert(t.subrange(0, w.len() as int)[0] == t[0]);
            }
        }
        assert(!matches_at(t, 0, t.len() as int, descriptor_words(DescriptorWords::Major7)[6])) by {
            let w = descriptor_words(DescriptorWords::Major7)[6];
            assert(w == "\u{394}"@);
            if matches_at(t, 0, t.len() as int, w) {
                assert(t.subrange(0, w.len() as int)[0] == t[0]);
            }
        }
        assert(!matches_at(t, 0, t.len() as int, descriptor_words(DescriptorWords::Major7)[7])) by {
            let w = descriptor_words(DescriptorWords::Major7)[7];
            assert(w == "\u{25b3}"@);
            if matches_at(t, 0, t.len() as int, w) {
                assert(t.subrange(0, w.len() as int)[0] == t[0]);
            }
        }
        lemma_first_match_none(t, 0, t.len() as int, descriptor_words(DescriptorWords::Major7));
        assert(descriptor_words(DescriptorWords::Sus2)[0] == "sus2"@);
        assert(matches_at(t, 0, t.len() as int, descriptor_words(DescriptorWords::Sus2)[0])) by {
            assert(t.subrange(0, 4) =~= h);
            assert(descriptor_words(DescriptorWords::Sus2)[0] =~= h);
        }
        lemma_first_match_at(t, 0, t.len() as int, descriptor_words(DescriptorWords::Sus2), 0);
    } else {
        assert(h =~= seq!['s', 'u', 's', '4']);
        assert(!matches_at(t, 0, t.len() as int, descriptor_words(DescriptorWords::HalfDiminishedSeventh)[0])) by {
            let w = descriptor_words(DescriptorWords::HalfDiminishedSeventh)[0];
            assert(w == "\u{f8}7"@);
            if matches_at(t, 0, t.len() as int, w) {
                assert(t.subrange(0, w.len() as int)[0] == t[0]);
            }
        }
        assert(!matches_at(t, 0, t.len() as int, descriptor_words(DescriptorWords::HalfDiminishedSeventh)[1])) by {
            let w = descriptor_words(DescriptorWords::HalfDiminishedSeventh)[1];
            assert(w == "\u{d8}7"@);
            if matches_at(t, 0, t.len() as int, w) {
                assert(t.subrange(0, w.len() as int)[0] == t[0]);
            }
        }
        lemma_first_match_none(t, 0, t.len() as int, descriptor_words(DescriptorWords::HalfDiminishedSeventh));
        assert(!matches_at(t, 0, t.len() as int, descriptor_words(DescriptorWords::HalfDiminished)[0])) by {
            let w = descriptor_words(DescriptorWords::HalfDiminished)[0];
            assert(w == "\u{f8}"@);
            if matches_at(t, 0, t.len() as int, w) {
                assert(t.subrange(0, w.len() as int)[0] == t[0]);
            }
        }
        assert(!matches_at(t, 0, t.len() as int, descriptor_words(DescriptorWords::HalfDiminished)[1])) by {
            let w = descriptor_words(DescriptorWords::HalfDiminished)[1];
            assert(w == "\u{d8}"@);
            if matches_at(t, 0, t.len() as int, w) {
                assert(t.subrange(0, w.len() as int)[0] == t[0]);
            }
        }
        lemma_first_match_none(t, 0, t.len() as int, descriptor_words(DescriptorWords::HalfDiminished));
        assert(!matches_at(t, 0, t.len() as int, descriptor_words(DescriptorWords::Alt)[0])) by {
            let w = descriptor_words(DescriptorWords::Alt)[0];
            assert(w == "alt"@);
            if matches_at(t, 0, t.len() as int, w) {
                assert(t.subrange(0, w.len() as int)[0] == t[0]);
            }
        }
        assert(!matches_at(t, 0, t.len() as int, descriptor_words(DescriptorWords::Alt)[1])) by {
            let w = descriptor_words(DescriptorWords::Alt)[1];
            assert(w == "Alt"@);
            if matches_at(t, 0, t.len() as int, w) {
                assert(t.subrange(0, w.len() as int)[0] == t[0]);
            }
        }
        assert(!matches_at(t, 0, t.len() as int, descriptor_words(DescriptorWords::Alt)[2])) by {
            let w = descriptor_words(DescriptorWords::Alt)[2];
            assert(w == "ALT"@);
            if matches_at(t, 0, t.len() as int, w) {
                assert(t.subrange(0, w.len() as int)[0] == t[0]);
            }
        }
        lemma_first_match_none(t, 0, t.len() as int, descriptor_words(DescriptorWords::Alt));
        assert(!matches_at(t, 0, t.len() as int, descriptor_words(DescriptorWords::Major13)[0])) by {
            let w = descriptor_words(DescriptorWords::Major13)[0];
            assert(w == "maj13"@);
            if matches_at(t, 0, t.len() as int, w) {
                assert(t.subrange(0, w.len() as int)[0] == t[0]);
            }
        }
        assert(!matches_at(t, 0, t.len() as int, descriptor_words(DescriptorWords::Major13)[1])) by {
            let w = descriptor_words(DescriptorWords::Major13)[1];
            assert(w == "Maj13"@);
            if matches_at(t, 0, t.len() as int, w) {
                assert(t.subrange(0, w.len() as int)[0] == t[0]);
            }
        }
        assert(!matches_at(t, 0, t.len() as int, descriptor_words(DescriptorWords::Major13)[2])) by {
            let w = descriptor_words(DescriptorWords::Major13)[2];
            assert(w == "MAJ13"@);
            if matches_at(t, 0, t.len() as int, w) {
                assert(t.subrange(0, w.len() as int)[0] == t[0]);
            }
        }
        assert(!matches_at(t, 0, t.len() as int, descriptor_words(DescriptorWords::Major13)[3])) by {
            let w = descriptor_words(DescriptorWords::Major13)[3];
            assert(w == "M13"@);
            if matches_at(t, 0, t.len() as int, w) {
                assert(t.subrange(0, w.len() as int)[0] == t[0]);
            }
        }
        assert(!matches_at(t, 0, t.len() as int, descriptor_words(DescriptorWords::Major13)[4])) by {
            let w = descriptor_words(DescriptorWords::Major13)[4];
            assert(w == "\u{394}13"@);
            if matches_at(t, 0, t.len() as int, w) {
                assert(t.subrange(0, w.len() as int)[0] == t[0]);
            }
        }
        assert(!matches_at(t, 0, t.len() as int, descriptor_words(DescriptorWords::Major13)[5])) by {
            let w = descriptor_words(DescriptorWords::Major13)[5];
            assert(w == "\u{25b3}13"@);
            if matches_at(t, 0, t.len() as int, w) {
                assert(t.subrange(0, w.len() as int)[0] == t[0]);
            }
        }
        lemma_first_match_none(t, 0, t.len() as int, descriptor_words(DescriptorWords::Major13));
        assert(!matches_at(t, 0, t.len() as int, descriptor_words(DescriptorWords::Major11)[0])) by {
            let w = descriptor_words(DescriptorWords::Major11)[0];
            assert(w == "maj11"@);
            if matches_at(t, 0, t.len() as int, w) {
                assert(t.subrange(0, w.len() as int)[0] == t[0]);
            }
        }
        assert(!matches_at(t, 0, t.len() as int, descriptor_words(DescriptorWords::Major11)[1])) by {
            let w = descriptor_words(DescriptorWords::Major11)[1];
            assert(w == "Maj11"@);
            if matches_at(t, 0, t.len() as int, w) {
                assert(t.subrange(0, w.len() as int)[0] == t[0]);
            }
        }
        assert(!matches_at(t, 0, t.len() as int, descriptor_words(DescriptorWords::Major11)[2])) by {
            let w = descriptor_words(DescriptorWords::Major11)[2];
            assert(w == "MAJ11"@);
            if matches_at(t, 0, t.len() as int, w) {
                assert(t.subrange(0, w.len() as int)[0] == t[0]);
            }
        }
        assert(!matches_at(t, 0, t.len() as int, descriptor_words(DescriptorWords::Major11)[3])) by {
            let w = descriptor_words(DescriptorWords::Major11)[3];
            assert(w == "M11"@);
            if matches_at(t, 0, t.len() as int, w) {
                assert(t.subrange(0, w.len() as int)[0] == t[0]);
            }
        }
        assert(!matches_at(t, 0, t.len() as int, descriptor_words(DescriptorWords::Major11)[4])) by {
            let w = descriptor_words(DescriptorWords::Major11)[4];
            assert(w == "\u{394}11"@);
            if matches_at(t, 0, t.len() as int, w) {
                assert(t.subrange(0, w.len() as int)[0] == t[0]);
            }
        }
        assert(!matches_at(t, 0, t.len() as int, descriptor_words(DescriptorWords::Major11)[5])) by {
            let w = descriptor_words(DescriptorWords::Major11)[5];
            assert(w == "\u{25b3}11"@);
            if matches_at(t, 0, t.len() as int, w) {
                assert(t.subrange(0, w.len() as int)[0] == t[0]);
            }
        }
        lemma_first_match_none(t, 0, t.len() as int, descriptor_words(DescriptorWords::Major11));
        assert(!matches_at(t, 0, t.len() as int, descriptor_words(DescriptorWords::Major9)[0])) by {
            let w = descriptor_words(DescriptorWords::Major9)[0];
            assert(w == "maj9"@);
            if matches_at(t, 0, t.len() as int, w) {
                assert(t.subrange(0, w.len() as int)[0] == t[0]);
            }
        }
        assert(!matches_at(t, 0, t.len() as int, descriptor_words(DescriptorWords::Major9)[1])) by {
            let w = descriptor_words(DescriptorWords::Major9)[1];
            assert(w == "Maj9"@);
            if matches_at(t, 0, t.len() as int, w) {
                assert(t.subrange(0, w.len() as int)[0] == t[0]);
            }
        }
        assert(!matches_at(t, 0, t.len() as int, descriptor_words(DescriptorWords::Major9)[2])) by {
            let w = descriptor_words(DescriptorWords::Major9)[2];
            assert(w == "MAJ9"@);
            if matches_at(t, 0, t.len() as int, w) {
                assert(t.subrange(0, w.len() as int)[0] == t[0]);
            }
        }
        assert(!matches_at(t, 0, t.len() as int, descriptor_words(DescriptorWords::Major9)[3])) by {
            let w = descriptor_words(DescriptorWords::Major9)[3];
            assert(w == "M9"@);
            if matches_at(t, 0, t.len() as int, w) {
                assert(t.subrange(0, w.len() as int)[0] == t[0]);
            }
        }
        assert(!matches_at(t, 0, t.len() as int, descriptor_words(DescriptorWords::Major9)[4])) by {
            let w = descriptor_words(DescriptorWords::Major9)[4];
            assert(w == "\u{394}9"@);
            if matches_at(t, 0, t.len() as int, w) {
                assert(t.subrange(0, w.len() as int)[0] == t[0]);
            }
        }
        assert(!matches_at(t, 0, t.len() as int, descriptor_words(DescriptorWords::Major9)[5])) by {
            let w = descriptor_words(DescriptorWords::Major9)[5];
            assert(w == "\u{25b3}9"@);
            if matches_at(t, 0, t.len() as int, w) {
                assert(t.subrange(0, w.len() as int)[0] == t[0]);
            }
        }
        lemma_first_match_none(t, 0, t.len() as int, descriptor_words(DescriptorWords::Major9));
        assert(!matches_at(t, 0, t.len() as int, descriptor_words(DescriptorWords::Major7)[0])) by {
            let w = descriptor_words(DescriptorWords::Major7)[0];
            assert(w == "maj7"@);
            if matches_at(t, 0, t.len() as int, w) {
                assert(t.subrange(0, w.len() as int)[0] == t[0]);
            }
        }
        assert(!matches_at(t, 0, t.len() as int, descriptor_words(DescriptorWords::Major7)[1])) by {
            let w = descriptor_words(DescriptorWords::Major7)[1];
            assert(w == "Maj7"@);
            if matches_at(t, 0, t.len() as int, w) {
                assert(t.subrange(0, w.len() as int)[0] == t[0]);
            }
        }
        assert(!matches_at(t, 0, t.len() as int, descriptor_words(DescriptorWords::Major7)[2])) by {
            let w = descriptor_words(DescriptorWords::Major7)[2];
            assert(w == "MAJ7"@);
            if matches_at(t, 0, t.len() as int, w) {
                assert(t.subrange(0, w.len() as int)[0] == t[0]);
            }
        }
        assert(!matches_at(t, 0, t.len() as int, descriptor_words(DescriptorWords::Major7)[3])) by {
            let w = descriptor_words(DescriptorWords::Major7)[3];
            assert(w == "M7"@);
            if matches_at(t, 0, t.len() as int, w) {
                assert(t.subrange(0, w.len() as int)[0] == t[0]);
            }
        }
        assert(!matches_at(t, 0, t.len() as int, descriptor_words(DescriptorWords::Major7)[4])) by {
            let w = descriptor_words(DescriptorWords::Major7)[4];
            assert(w == "\u{394}7"@);
            if matches_at(t, 0, t.len() as int, w) {
                assert(t.subrange(0, w.len() as int)[0] == t[0]);
            }
        }
        assert(!matches_at(t, 0, t.len() as int, descriptor_words(DescriptorWords::Major7)[5])) by {
            let w = descriptor_words(DescriptorWords::Major7)[5];
            assert(w == "\u{25b3}7"@);
            if matches_at(t, 0, t.len() as int, w) {
                assert(t.subrange(0, w.len() as int)[0] == t[0]);
            }
        }
        assert(!matches_at(t, 0, t.len() as int, descriptor_words(DescriptorWords::Major7)[6])) by {
            let w = descriptor_words(DescriptorWords::Major7)[6];
            assert(w == "\u{394}"@);
            if matches_at(t, 0, t.len() as int, w) {
                assert(t.subrange(0, w.len() as int)[0] == t[0]);
            }
        }
        assert(!matches_at(t, 0, t.len() as int, descriptor_words(DescriptorWords::Major7)[7])) by {
            let w = descriptor_words(DescriptorWords::Major7)[7];
            assert(w == "\u{25b3}"@);
            if matches_at(t, 0, t.len() as int, w) {
                assert(t.subrange(0, w.len() as int)[0] == t[0]);
            }
        }
        lemma_first_match_none(t, 0, t.len() as int, descriptor_words(DescriptorWords::Major7));
        assert(!matches_at(t, 0, t.len() as int, descriptor_words(DescriptorWords::Sus2)[0])) by {
            let w = descriptor_words(DescriptorWords::Sus2)[0];
            assert(w == "sus2"@);
            if matches_at(t, 0, t.len() as int, w) {
                assert(t.subrange(0, w.len() as int)[3] == t[3]);
            }
        }
        assert(!matches_at(t, 0, t.len() as int, descriptor_words(DescriptorWords::Sus2)[1])) by {
            let w = descriptor_words(DescriptorWords::Sus2)[1];
            assert(w == "Sus2"@);
            if matches_at(t, 0, t.len() as int, w) {
                assert(t.subrange(0, w.len() as int)[0] == t[0]);
            }
        }
        assert(!matches_at(t, 0, t.len() as int, descriptor_words(DescriptorWords::Sus2)[2])) by {
            let w = descriptor_words(DescriptorWords::Sus2)[2];
            assert(w == "SUS2"@);
            if matches_at(t, 0, t.len() as int, w) {
                assert(t.subrange(0, w.len() as int)[0] == t[0]);
            }
        }
        lemma_first_match_none(t, 0, t.len() as int, descriptor_words(DescriptorWords::Sus2));
        assert(descriptor_words(DescriptorWords::Sus4)[0] == "sus4"@);
        assert(matches_at(t, 0, t.len() as int, descriptor_words(DescriptorWords::Sus4)[0])) by {
            assert(t.subrange(0, 4) =~= h);
            assert(descriptor_words(DescriptorWords::Sus4)[0] =~= h);
        }
        lemma_first_match_at(t, 0, t.len() as int, descriptor_words(DescriptorWords::Sus4), 0);
    }
}

/// `n` characters of `t` lie at `i` and after.
spec fn i_fits(t: Seq<char>, i: int, n: int) -> bool {
    i + n <= t.len()
}

/// Setting a bit sets it.
proof fn lemma_bit16_set(x: u16, k: u16)
    requires
        k < 16,
    ensures
        crate::bits::bit16(x | (1u16 << k), k),
{
    assert((x | (1u16 << k)) & (1u16 << k) != 0) by (bit_vector)
        requires
            k < 16,
    ;
}

/// No word starts a text that starts with a flat or a sharp.
proof fn lemma_no_word_at_accidental(t: Seq<char>)
    requires
        t.len() > 0,
        t[0] == 'b' || t[0] == '#',
    ensures
        first_match(t, 0, t.len() as int, descriptor_words(DescriptorWords::HalfDiminishedSeventh)) is None,
        first_match(t, 0, t.len() as int, descriptor_words(DescriptorWords::HalfDiminished)) is None,
        first_match(t, 0, t.len() as int, descriptor_words(DescriptorWords::Alt)) is None,
        first_match(t, 0, t.len() as int, descriptor_words(DescriptorWords::Major13)) is None,
        first_match(t, 0, t.len() as int, descriptor_words(DescriptorWords::Major11)) is None,
        first_match(t, 0, t.len() as int, descriptor_words(DescriptorWords::Major9)) is None,
        first_match(t, 0, t.len() as int, descriptor_words(DescriptorWords::Major7)) is None,
        first_match(t, 0, t.len() as int, descriptor_words(DescriptorWords::Sus2)) is None,
        first_match(t, 0, t.len() as int, descriptor_words(DescriptorWords::Sus4)) is None,
        first_match(t, 0, t.len() as int, descriptor_words(DescriptorWords::Add13)) is None,
        first_match(t, 0, t.len() as int, descriptor_words(DescriptorWords::Add11)) is None,
        first_match(t, 0, t.len() as int, descriptor_words(DescriptorWords::Add9)) is None,
        first_match(t, 0, t.len() as int, descriptor_words(DescriptorWords::No5)) is None,
        first_match(t, 0, t.len() as int, descriptor_words(DescriptorWords::No3)) is None,
        first_match(t, 0, t.len() as int, descriptor_words(DescriptorWords::No1)) is None,
        first_match(t, 0, t.len() as int, descriptor_words(DescriptorWords::Thirteen)) is None,
        first_match(t, 0, t.len() as int, descriptor_words(DescriptorWords::Eleven)) is None,
        first_match(t, 0, t.len() as int, descriptor_words(DescriptorWords::Nine)) is None,
        first_match(t, 0, t.len() as int, descriptor_words(DescriptorWords::SixNine)) is None,
        first_match(t, 0, t.len() as int, descriptor_words(DescriptorWords::Seven)) is None,
        first_match(t, 0, t.len() as int, descriptor_words(DescriptorWords::Six)) is None,
{
    reveal_strlit("\u{f8}7");
    reveal_strlit("\u{d8}7");
    reveal_strlit("\u{f8}");
    reveal_strlit("\u{d8}");
    reveal_strlit("alt");
    reveal_strlit("Alt");
    reveal_strlit("ALT");
    reveal_strlit("maj13");
    reveal_strlit("Maj13");
    reveal_strlit("MAJ13");
    reveal_strlit("M13");
    reveal_strlit("\u{394}13");
    reveal_strlit("\u{25b3}13");
    reveal_strlit("maj11");
    reveal_strlit("Maj11");
    reveal_strlit("MAJ11");
    reveal_strlit("M11");
    reveal_strlit("\u{394}11");
    reveal_strlit("\u{25b3}11");
    reveal_strlit("maj9");
    reveal_strlit("Maj9");
    reveal_strlit("MAJ9");
    reveal_strlit("M9");
    reveal_strlit("\u{394}9");
    reveal_strlit("\u{25b3}9");
    reveal_strlit("maj7");
    reveal_strlit("Maj7");
    reveal_strlit("MAJ7");
    reveal_strlit("M7");
    reveal_strlit("\u{394}7");
    reveal_strlit("\u{25b3}7");
    reveal_strlit("\u{394}");
    reveal_strlit("\u{25b3}");
    reveal_strlit("sus2");
    reveal_strlit("Sus2");
    reveal_strlit("SUS2");
    reveal_strlit("sus4");
    reveal_strlit("Sus4");
    reveal_strlit("SUS4");
    reveal_strlit("sus");
    reveal_strlit("Sus");
    reveal_strlit("SUS");
    reveal_strlit("add13");
    reveal_strlit("add11");
    reveal_strlit("add4");
    reveal_strlit("add9");
    reveal_strlit("add2");
    reveal_strlit("omit5");
    reveal_strlit("no5");
    reveal_strlit("omit3");
    reveal_strlit("no3");
    reveal_strlit("omit1");
    reveal_strlit("no1");
    reveal_strlit("13");
    reveal_strlit("11");
    reveal_strlit("9");
    reveal_strlit("6/9");
    reveal_strlit("69");
    reveal_strlit("7");
    reveal_strlit("6");
    assert(!matches_at(t, 0, t.len() as int, descriptor_words(DescriptorWords::HalfDiminishedSeventh)[0])) by {
        let w = descriptor_words(DescriptorWords::HalfDiminishedSeventh)[0];
        assert(w == "\u{f8}7"@);
        assert(w[0] == '\u{f8}');
        if matches_at(t, 0, t.len() as int, w) {
            assert(t.subrange(0, w.len() as int)[0] == t[0]);
        }
    }
    assert(!matches_at(t, 0, t.len() as int, descriptor_words(DescriptorWords::HalfDiminishedSeventh)[1])) by {
        let w = descriptor_words(DescriptorWords::HalfDiminishedSeventh)[1];
        assert(w == "\u{d8}7"@);
        assert(w[0] == '\u{d8}');
        if matches_at(t, 0, t.len() as int, w) {
            assert(t.subrange(0, w.len() as int)[0] == t[0]);
        }
    }
    lemma_first_match_none(t, 0, t.len() as int, descriptor_words(DescriptorWords::HalfDiminishedSeventh));
    assert(!matches_at(t, 0, t.len() as int, descriptor_words(DescriptorWords::HalfDiminished)[0])) by {
        let w = descriptor_words(DescriptorWords::HalfDiminished)[0];
        assert(w == "\u{f8}"@);
        assert(w[0] == '\u{f8}');
        if matches_at(t, 0, t.len() as int, w) {
            assert(t.subrange(0, w.len() as int)[0] == t[0]);
        }
    }
    assert(!matches_at(t, 0, t.len() as int, descriptor_words(DescriptorWords::HalfDiminished)[1])) by {
        let w = descriptor_words(DescriptorWords::HalfDiminished)[1];
        assert(w == "\u{d8}"@);
        assert(w[0] == '\u{d8}');
        if matches_at(t, 0, t.len() as int, w) {
            assert(t.subrange(0, w.len() as int)[0] == t[0]);
        }
    }
    lemma_first_match_none(t, 0, t.len() as int, descriptor_words(DescriptorWords::HalfDiminished));
    assert(!matches_at(t, 0, t.len() as int, descriptor_words(DescriptorWords::Alt)[0])) by {
        let w = descriptor_words(DescriptorWords::Alt)[0];
        assert(w == "alt"@);
        assert(w[0] == 'a');
        if matches_at(t, 0, t.len() as int, w) {
            assert(t.subrange(0, w.len() as int)[0] == t[0]);
        }
    }
    assert(!matches_at(t, 0, t.len() as int, descriptor_words(DescriptorWords::Alt)[1])) by {
        let w = descriptor_words(DescriptorWords::Alt)[1];
        assert(w == "Alt"@);
        assert(w[0] == 'A');
        if matches_at(t, 0, t.len() as int, w) {
            assert(t.subrange(0, w.len() as int)[0] == t[0]);
        }
    }
    assert(!matches_at(t, 0, t.len() as int, descriptor_words(DescriptorWords::Alt)[2])) by {
        let w = descriptor_words(DescriptorWords::Alt)[2];
        assert(w == "ALT"@);
        assert(w[0] == 'A');
        if matches_at(t, 0, t.len() as int, w) {
            assert(t.subrange(0, w.len() as int)[0] == t[0]);
        }
    }
    lemma_first_match_none(t, 0, t.len() as int, descriptor_words(DescriptorWords::Alt));
    assert(!matches_at(t, 0, t.len() as int, descriptor_words(DescriptorWords::Major13)[0])) by {
        let w = descriptor_words(DescriptorWords::Major13)[0];
        assert(w == "maj13"@);
        assert(w[0] == 'm');
        if matches_at(t, 0, t.len() as int, w) {
            assert(t.subrange(0, w.len() as int)[0] == t[0]);
        }
    }
    assert(!matches_at(t, 0, t.len() as int, descriptor_words(DescriptorWords::Major13)[1])) by {
        let w = descriptor_words(DescriptorWords::Major13)[1];
        assert(w == "Maj13"@);
        assert(w[0] == 'M');
        if matches_at(t, 0, t.len() as int, w) {
            assert(t.subrange(0, w.len() as int)[0] == t[0]);
        }
    }
    assert(!matches_at(t, 0, t.len() as int, descriptor_words(DescriptorWords::Major13)[2])) by {
        let w = descriptor_words(DescriptorWords::Major13)[2];
        assert(w == "MAJ13"@);
        assert(w[0] == 'M');
        if matches_at(t, 0, t.len() as int, w) {
            assert(t.subrange(0, w.len() as int)[0] == t[0]);
        }
    }
    assert(!matches_at(t, 0, t.len() as int, descriptor_words(DescriptorWords::Major13)[3])) by {
        let w = descriptor_words(DescriptorWords::Major13)[3];
        assert(w == "M13"@);
        assert(w[0] == 'M');
        if matches_at(t, 0, t.len() as int, w) {
            assert(t.subrange(0, w.len() as int)[0] == t[0]);
        }
    }
    assert(!matches_at(t, 0, t.len() as int, descriptor_words(DescriptorWords::Major13)[4])) by {
        let w = descriptor_words(DescriptorWords::Major13)[4];
        assert(w == "\u{394}13"@);
        assert(w[0] == '\u{394}');
        if matches_at(t, 0, t.len() as int, w) {
            assert(t.subrange(0, w.len() as int)[0] == t[0]);
        }
    }
    assert(!matches_at(t, 0, t.len() as int, descriptor_words(DescriptorWords::Major13)[5])) by {
        let w = descriptor_words(DescriptorWords::Major13)[5];
        assert(w == "\u{25b3}13"@);
        assert(w[0] == '\u{25b3}');
        if matches_at(t, 0, t.len() as int, w) {
            assert(t.subrange(0, w.len() as int)[0] == t[0]);
        }
    }
    lemma_first_match_none(t, 0, t.len() as int, descriptor_words(DescriptorWords::Major13));
    assert(!matches_at(t, 0, t.len() as int, descriptor_words(DescriptorWords::Major11)[0])) by {
        let w = descriptor_words(DescriptorWords::Major11)[0];
        assert(w == "maj11"@);
        assert(w[0] == 'm');
        if matches_at(t, 0, t.len() as int, w) {
            assert(t.subrange(0, w.len() as int)[0] == t[0]);
        }
    }
    assert(!matches_at(t, 0, t.len() as int, descriptor_words(DescriptorWords::Major11)[1])) by {
        let w = descriptor_words(DescriptorWords::Major11)[1];
        assert(w == "Maj11"@);
        assert(w[0] == 'M');
        if matches_at(t, 0, t.len() as int, w) {
            assert(t.subrange(0, w.len() as int)[0] == t[0]);
        }
    }
    assert(!matches_at(t, 0, t.len() as int, descriptor_words(DescriptorWords::Major11)[2])) by {
        let w = descriptor_words(DescriptorWords::Major11)[2];
        assert(w == "MAJ11"@);
        assert(w[0] == 'M');
        if matches_at(t, 0, t.len() as int, w) {
            assert(t.subrange(0, w.len() as int)[0] == t[0]);
        }
    }
    assert(!matches_at(t, 0, t.len() as int, descriptor_words(DescriptorWords::Major11)[3])) by {
        let w = descriptor_words(DescriptorWords::Major11)[3];
        assert(w == "M11"@);
        assert(w[0] == 'M');
        if matches_at(t, 0, t.len() as int, w) {
            assert(t.subrange(0, w.len() as int)[0] == t[0]);
        }
    }
    assert(!matches_at(t, 0, t.len() as int, descriptor_words(DescriptorWords::Major11)[4])) by {
        let w = descriptor_words(DescriptorWords::Major11)[4];
        assert(w == "\u{394}11"@);
        assert(w[0] == '\u{394}');
        if matches_at(t, 0, t.len() as int, w) {
            assert(t.subrange(0, w.len() as int)[0] == t[0]);
        }
    }
    assert(!matches_at(t, 0, t.len() as int, descriptor_words(DescriptorWords::Major11)[5])) by {
        let w = descriptor_words(DescriptorWords::Major11)[5];
        assert(w == "\u{25b3}11"@);
        assert(w[0] == '\u{25b3}');
        if matches_at(t, 0, t.len() as int, w) {
            assert(t.subrange(0, w.len() as int)[0] == t[0]);
        }
    }
    lemma_first_match_none(t, 0, t.len() as int, descriptor_words(DescriptorWords::Major11));
    assert(!matches_at(t, 0, t.len() as int, descriptor_words(DescriptorWords::Major9)[0])) by {
        let w = descriptor_words(DescriptorWords::Major9)[0];
        assert(w == "maj9"@);
        assert(w[0] == 'm');
        if matches_at(t, 0, t.len() as int, w) {
            assert(t.subrange(0, w.len() as int)[0] == t[0]);
        }
    }
    assert(!matches_at(t, 0, t.len() as int, descriptor_words(DescriptorWords::Major9)[1])) by {
        let w = descriptor_words(DescriptorWords::Major9)[1];
        assert(w == "Maj9"@);
        assert(w[0] == 'M');
        if matches_at(t, 0, t.len() as int, w) {
            assert(t.subrange(0, w.len() as int)[0] == t[0]);
        }
    }
    assert(!matches_at(t, 0, t.len() as int, descriptor_words(DescriptorWords::Major9)[2])) by {
        let w = descriptor_words(DescriptorWords::Major9)[2];
        assert(w == "MAJ9"@);
        assert(w[0] == 'M');
        if matches_at(t, 0, t.len() as int, w) {
            assert(t.subrange(0, w.len() as int)[0] == t[0]);
        }
    }
    assert(!matches_at(t, 0, t.len() as int, descriptor_words(DescriptorWords::Major9)[3])) by {
        let w = descriptor_words(DescriptorWords::Major9)[3];
        assert(w == "M9"@);
        assert(w[0] == 'M');
        if matches_at(t, 0, t.len() as int, w) {
            assert(t.subrange(0, w.len() as int)[0] == t[0]);
        }
    }
    assert(!matches_at(t, 0, t.len() as int, descriptor_words(DescriptorWords::Major9)[4])) by {
        let w = descriptor_words(DescriptorWords::Major9)[4];
        assert(w == "\u{394}9"@);
        assert(w[0] == '\u{394}');
        if matches_at(t, 0, t.len() as int, w) {
            assert(t.subrange(0, w.len() as int)[0] == t[0]);
        }
    }
    assert(!matches_at(t, 0, t.len() as int, descriptor_words(DescriptorWords::Major9)[5])) by {
        let w = descriptor_words(DescriptorWords::Major9)[5];
        assert(w == "\u{25b3}9"@);
        assert(w[0] == '\u{25b3}');
        if matches_at(t, 0, t.len() as int, w) {
            assert(t.subrange(0, w.len() as int)[0] == t[0]);
        }
    }
    lemma_first_match_none(t, 0, t.len() as int, descriptor_words(DescriptorWords::Major9));
    assert(!matches_at(t, 0, t.len() as int, descriptor_words(DescriptorWords::Major7)[0])) by {
        let w = descriptor_words(DescriptorWords::Major7)[0];
        assert(w == "maj7"@);
        assert(w[0] == 'm');
        if matches_at(t, 0, t.len() as int, w) {
            assert(t.subrange(0, w.len() as int)[0] == t[0]);
        }
    }
    assert(!matches_at(t, 0, t.len() as int, descriptor_words(DescriptorWords::Major7)[1])) by {
        let w = descriptor_words(DescriptorWords::Major7)[1];
        assert(w == "Maj7"@);
        assert(w[0] == 'M');
        if matches_at(t, 0, t.len() as int, w) {
            assert(t.subrange(0, w.len() as int)[0] == t[0]);
        }
    }
    assert(!matches_at(t, 0, t.len() as int, descriptor_words(DescriptorWords::Major7)[2])) by {
        let w = descriptor_words(DescriptorWords::Major7)[2];
        assert(w == "MAJ7"@);
        assert(w[0] == 'M');
        if matches_at(t, 0, t.len() as int, w) {
            assert(t.subrange(0, w.len() as int)[0] == t[0]);
        }
    }
    assert(!matches_at(t, 0, t.len() as int, descriptor_words(DescriptorWords::Major7)[3])) by {
        let w = descriptor_words(DescriptorWords::Major7)[3];
        assert(w == "M7"@);
        assert(w[0] == 'M');
        if matches_at(t, 0, t.len() as int, w) {
            assert(t.subrange(0, w.len() as int)[0] == t[0]);
        }
    }
    assert(!matches_at(t, 0, t.len() as int, descriptor_words(DescriptorWords::Major7)[4])) by {
        let w = descriptor_words(DescriptorWords::Major7)[4];
        assert(w == "\u{394}7"@);
        assert(w[0] == '\u{394}');
        if matches_at(t, 0, t.len() as int, w) {
            assert(t.subrange(0, w.len() as int)[0] == t[0]);
        }
    }
    assert(!matches_at(t, 0, t.len() as int, descriptor_words(DescriptorWords::Major7)[5])) by {
        let w = descriptor_words(DescriptorWords::Major7)[5];
        assert(w == "\u{25b3}7"@);
        assert(w[0] == '\u{25b3}');
        if matches_at(t, 0, t.len() as int, w) {
            assert(t.subrange(0, w.len() as int)[0] == t[0]);
        }
    }
    assert(!matches_at(t, 0, t.len() as int, descriptor_words(DescriptorWords::Major7)[6])) by {
        let w = descriptor_words(DescriptorWords::Major7)[6];
        assert(w == "\u{394}"@);
        assert(w[0] == '\u{394}');
        if matches_at(t, 0, t.len() as int, w) {
            assert(t.subrange(0, w.len() as int)[0] == t[0]);
        }
    }
    assert(!matches_at(t, 0, t.len() as int, descriptor_words(DescriptorWords::Major7)[7])) by {
        let w = descriptor_words(DescriptorWords::Major7)[7];
        assert(w == "\u{25b3}"@);
        assert(w[0] == '\u{25b3}');
        if matches_at(t, 0, t.len() as int, w) {
            assert(t.subrange(0, w.len() as int)[0] == t[0]);
        }
    }
    lemma_first_match_none(t, 0, t.len() as int, descriptor_words(DescriptorWords::Major7));
    assert(!matches_at(t, 0, t.len() as int, descriptor_words(DescriptorWords::Sus2)[0])) by {
        let w = descriptor_words(DescriptorWords::Sus2)[0];
        assert(w == "sus2"@);
        assert(w[0] == 's');
        if matches_at(t, 0, t.len() as int, w) {
            assert(t.subrange(0, w.len() as int)[0] == t[0]);
        }
    }
    assert(!matches_at(t, 0, t.len() as int, descriptor_words(DescriptorWords::Sus2)[1])) by {
        let w = descriptor_words(DescriptorWords::Sus2)[1];
        assert(w == "Sus2"@);
        assert(w[0] == 'S');
        if matches_at(t, 0, t.len() as int, w) {
            assert(t.subrange(0, w.len() as int)[0] == t[0]);
        }
    }
    assert(!matches_at(t, 0, t.len() as int, descriptor_words(DescriptorWords::Sus2)[2])) by {
        let w = descriptor_words(DescriptorWords::Sus2)[2];
        assert(w == "SUS2"@);
        assert(w[0] == 'S');
        if matches_at(t, 0, t.len() as int, w) {
            assert(t.subrange(0, w.len() as int)[0] == t[0]);
        }
    }
    lemma_first_match_none(t, 0, t.len() as int, descriptor_words(DescriptorWords::Sus2));
    assert(!matches_at(t, 0, t.len() as int, descriptor_words(DescriptorWords::Sus4)[0])) by {
        let w = descriptor_words(DescriptorWords::Sus4)[0];
        assert(w == "sus4"@);
        assert(w[0] == 's');
        if matches_at(t, 0, t.len() as int, w) {
            assert(t.subrange(0, w.len() as int)[0] == t[0]);
        }
    }
    assert(!matches_at(t, 0, t.len() as int, descriptor_words(DescriptorWords::Sus4)[1])) by {
        let w = descriptor_words(DescriptorWords::Sus4)[1];
        assert(w == "Sus4"@);
        assert(w[0] == 'S');
        if matches_at(t, 0, t.len() as int, w) {
            assert(t.subrange(0, w.len() as int)[0] == t[0]);
        }
    }
    assert(!matches_at(t, 0, t.len() as int, descriptor_words(DescriptorWords::Sus4)[2])) by {
        let w = descriptor_words(DescriptorWords::Sus4)[2];
        assert(w == "SUS4"@);
        assert(w[0] == 'S');
        if matches_at(t, 0, t.len() as int, w) {
            assert(t.subrange(0, w.len() as int)[0] == t[0]);
        }
    }
    assert(!matches_at(t, 0, t.len() as int, descriptor_words(DescriptorWords::Sus4)[3])) by {
        let w = descriptor_words(DescriptorWords::Sus4)[3];
        assert(w == "sus"@);
        assert(w[0] == 's');
        if matches_at(t, 0, t.len() as int, w) {
            assert(t.subrange(0, w.len() as int)[0] == t[0]);
        }
    }
    assert(!matches_at(t, 0, t.len() as int, descriptor_words(DescriptorWords::Sus4)[4])) by {
        let w = descriptor_words(DescriptorWords::Sus4)[4];
        assert(w == "Sus"@);
        assert(w[0] == 'S');
        if matches_at(t, 0, t.len() as int, w) {
            assert(t.subrange(0, w.len() as int)[0] == t[0]);
        }
    }
    assert(!matches_at(t, 0, t.len() as int, descriptor_words(DescriptorWords::Sus4)[5])) by {
        let w = descriptor_words(DescriptorWords::Sus4)[5];
        assert(w == "SUS"@);
        assert(w[0] == 'S');
        if matches_at(t, 0, t.len() as int, w) {
            assert(t.subrange(0, w.len() as int)[0] == t[0]);
        }
    }
    lemma_first_match_none(t, 0, t.len() as int, descriptor_words(DescriptorWords::Sus4));
    assert(!matches_at(t, 0, t.len() as int, descriptor_words(DescriptorWords::Add13)[0])) by {
        let w = descriptor_words(DescriptorWords::Add13)[0];
        assert(w == "add13"@);
        assert(w[0] == 'a');
        if matches_at(t, 0, t.len() as int, w) {
            assert(t.subrange(0, w.len() as int)[0] == t[0]);
        }
    }
    lemma_first_match_none(t, 0, t.len() as int, descriptor_words(DescriptorWords::Add13));
    assert(!matches_at(t, 0, t.len() as int, descriptor_words(DescriptorWords::Add11)[0])) by {
        let w = descriptor_words(DescriptorWords::Add11)[0];
        assert(w == "add11"@);
        assert(w[0] == 'a');
        if matches_at(t, 0, t.len() as int, w) {
            assert(t.subrange(0, w.len() as int)[0] == t[0]);
        }
    }
    assert(!matches_at(t, 0, t.len() as int, descriptor_words(DescriptorWords::Add11)[1])) by {
        let w = descriptor_words(DescriptorWords::Add11)[1];
        assert(w == "add4"@);
        assert(w[0] == 'a');
        if matches_at(t, 0, t.len() as int, w) {
            assert(t.subrange(0, w.len() as int)[0] == t[0]);
        }
    }
    lemma_first_match_none(t, 0, t.len() as int, descriptor_words(DescriptorWords::Add11));
    assert(!matches_at(t, 0, t.len() as int, descriptor_words(DescriptorWords::Add9)[0])) by {
        let w = descriptor_words(DescriptorWords::Add9)[0];
        assert(w == "add9"@);
        assert(w[0] == 'a');
        if matches_at(t, 0, t.len() as int, w) {
            assert(t.subrange(0, w.len() as int)[0] == t[0]);
        }
    }
    assert(!matches_at(t, 0, t.len() as int, descriptor_words(DescriptorWords::Add9)[1])) by {
        let w = descriptor_words(DescriptorWords::Add9)[1];
        assert(w == "add2"@);
        assert(w[0] == 'a');
        if matches_at(t, 0, t.len() as int, w) {
            assert(t.subrange(0, w.len() as int)[0] == t[0]);
        }
    }
    lemma_first_match_none(t, 0, t.len() as int, descriptor_words(DescriptorWords::Add9));
    assert(!matches_at(t, 0, t.len() as int, descriptor_words(DescriptorWords::No5)[0])) by {
        let w = descriptor_words(DescriptorWords::No5)[0];
        assert(w == "omit5"@);
        assert(w[0] == 'o');
        if matches_at(t, 0, t.len() as int, w) {
            assert(t.subrange(0, w.len() as int)[0] == t[0]);
        }
    }
    assert(!matches_at(t, 0, t.len() as int, descriptor_words(DescriptorWords::No5)[1])) by {
        let w = descriptor_words(DescriptorWords::No5)[1];
        assert(w == "no5"@);
        assert(w[0] == 'n');
        if matches_at(t, 0, t.len() as int, w) {
            assert(t.subrange(0, w.len() as int)[0] == t[0]);
        }
    }
    lemma_first_match_none(t, 0, t.len() as int, descriptor_words(DescriptorWords::No5));
    assert(!matches_at(t, 0, t.len() as int, descriptor_words(DescriptorWords::No3)[0])) by {
        let w = descriptor_words(DescriptorWords::No3)[0];
        assert(w == "omit3"@);
        assert(w[0] == 'o');
        if matches_at(t, 0, t.len() as int, w) {
            assert(t.subrange(0, w.len() as int)[0] == t[0]);
        }
    }
    assert(!matches_at(t, 0, t.len() as int, descriptor_words(DescriptorWords::No3)[1])) by {
        let w = descriptor_words(DescriptorWords::No3)[1];
        assert(w == "no3"@);
        assert(w[0] == 'n');
        if matches_at(t, 0, t.len() as int, w) {
            assert(t.subrange(0, w.len() as int)[0] == t[0]);
        }
    }
    lemma_first_match_none(t, 0, t.len() as int, descriptor_words(DescriptorWords::No3));
    assert(!matches_at(t, 0, t.len() as int, descriptor_words(DescriptorWords::No1)[0])) by {
        let w = descriptor_words(DescriptorWords::No1)[0];
        assert(w == "omit1"@);
        assert(w[0] == 'o');
        if matches_at(t, 0, t.len() as int, w) {
            assert(t.subrange(0, w.len() as int)[0] == t[0]);
        }
    }
    assert(!matches_at(t, 0, t.len() as int, descriptor_words(DescriptorWords::No1)[1])) by {
        let w = descriptor_words(DescriptorWords::No1)[1];
        assert(w == "no1"@);
        assert(w[0] == 'n');
        if matches_at(t, 0, t.len() as int, w) {
            assert(t.subrange(0, w.len() as int)[0] == t[0]);
        }
    }
    lemma_first_match_none(t, 0, t.len() as int, descriptor_words(DescriptorWords::No1));
    assert(!matches_at(t, 0, t.len() as int, descriptor_words(DescriptorWords::Thirteen)[0])) by {
        let w = descriptor_words(DescriptorWords::Thirteen)[0];
        assert(w == "13"@);
        assert(w[0] == '1');
        if matches_at(t, 0, t.len() as int, w) {
            assert(t.subrange(0, w.len() as int)[0] == t[0]);
        }
    }
    lemma_first_match_none(t, 0, t.len() as int, descriptor_words(DescriptorWords::Thirteen));
    assert(!matches_at(t, 0, t.len() as int, descriptor_words(DescriptorWords::Eleven)[0])) by {
        let w = descriptor_words(DescriptorWords::Eleven)[0];
        assert(w == "11"@);
        assert(w[0] == '1');
        if matches_at(t, 0, t.len() as int, w) {
            assert(t.subrange(0, w.len() as int)[0] == t[0]);
        }
    }
    lemma_first_match_none(t, 0, t.len() as int, descriptor_words(DescriptorWords::Eleven));
    assert(!matches_at(t, 0, t.len() as int, descriptor_words(DescriptorWords::Nine)[0])) by {
        let w = descriptor_words(DescriptorWords::Nine)[0];
        assert(w == "9"@);
        assert(w[0] == '9');
        if matches_at(t, 0, t.len() as int, w) {
            assert(t.subrange(0, w.len() as int)[0] == t[0]);
        }
    }
    lemma_first_match_none(t, 0, t.len() as int, descriptor_words(DescriptorWords::Nine));
    assert(!matches_at(t, 0, t.len() as int, descriptor_words(DescriptorWords::SixNine)[0])) by {
        let w = descriptor_words(DescriptorWords::SixNine)[0];
        assert(w == "6/9"@);
        assert(w[0] == '6');
        if matches_at(t, 0, t.len() as int, w) {
            assert(t.subrange(0, w.len() as int)[0] == t[0]);
        }
    }
    assert(!matches_at(t, 0, t.len() as int, descriptor_words(DescriptorWords::SixNine)[1])) by {
        let w = descriptor_words(DescriptorWords::SixNine)[1];
        assert(w == "69"@);
        assert(w[0] == '6');
        if matches_at(t, 0, t.len() as int, w) {
            assert(t.subrange(0, w.len() as int)[0] == t[0]);
        }
    }
    lemma_first_match_none(t, 0, t.len() as int, descriptor_words(DescriptorWords::SixNine));
    assert(!matches_at(t, 0, t.len() as int, descriptor_words(DescriptorWords::Seven)[0])) by {
        let w = descriptor_words(DescriptorWords::Seven)[0];
        assert(w == "7"@);
        assert(w[0] == '7');
        if matches_at(t, 0, t.len() as int, w) {
            assert(t.subrange(0, w.len() as int)[0] == t[0]);
        }
    }
    lemma_first_match_none(t, 0, t.len() as int, descriptor_words(DescriptorWords::Seven));
    assert(!matches_at(t, 0, t.len() as int, descriptor_words(DescriptorWords::Six)[0])) by {
        let w = descriptor_words(DescriptorWords::Six)[0];
        assert(w == "6"@);
        assert(w[0] == '6');
        if matches_at(t, 0, t.len() as int, w) {
            assert(t.subrange(0, w.len() as int)[0] == t[0]);
        }
    }
    lemma_first_match_none(t, 0, t.len() as int, descriptor_words(DescriptorWords::Six));
}

/// Reading back an alteration as it is printed: at the start of any text
/// that begins with the printed alteration of slot `k` (its flats or
/// sharps, then its degree), the reader finds that alteration, and applying
/// it to any state without it gives a state with it.
pub proof fn lemma_alteration_reads_back(k: int, t: Seq<char>, st: DescriptorState)
    requires
        0 <= k < 16,
        t.len() >= (crate::notes::accidental_chars(slot_accidental(k)) + crate::text::decimal(slot_degree(k) as nat)).len(),
        t.subrange(
            0,
            (crate::notes::accidental_chars(slot_accidental(k)) + crate::text::decimal(slot_degree(k) as nat)).len() as int,
        ) == crate::notes::accidental_chars(slot_accidental(k)) + crate::text::decimal(slot_degree(k) as nat),
        !st.spec.has_alteration(slot_degree(k), slot_accidental(k)),
    ensures
        ({
            let found = token_at(t, 0);
            let piece = crate::notes::accidental_chars(slot_accidental(k)) + crate::text::decimal(slot_degree(k) as nat);
            &&& found is Some
            &&& (found->0).1 == piece.len()
            &&& (found->0).0 == DescriptorToken::Altered(
                Alteration { degree: slot_degree(k) as u8, accidental: slot_accidental(k) as i8 },
            )
            &&& apply_token(st, (found->0).0) is Some
            &&& (apply_token(st, (found->0).0)->0).spec.has_alteration(slot_degree(k), slot_accidental(k))
        }),
{
    reveal(token_at);
    reveal(apply_token);
    let h = crate::notes::accidental_chars(slot_accidental(k)) + crate::text::decimal(slot_degree(k) as nat);
    assert forall|j: int| 0 <= j < h.len() implies #[trigger] t[j] == h[j] by {
        assert(t.subrange(0, h.len() as int)[j] == t[j]);
    }
    assert(crate::text::decimal(1) =~= seq!['1']);
    assert(crate::text::decimal(13) =~= seq!['1', '3']);
    assert(crate::text::decimal(11) =~= seq!['1', '1']);
    assert(crate::text::decimal(9) =~= seq!['9']);
    assert(crate::text::decimal(5) =~= seq!['5']);
    if k == 0 {
        assert(h =~= seq!['b', 'b', '5']);
        lemma_no_word_at_accidental(t);
        assert(alteration_slot(slot_degree(k), slot_accidental(k)) == Some(0int));
        lemma_bit16_set(st.spec.alteration_bits, 0u16);
        assert(t.subrange(2, 3) =~= seq!['5']);
        if i_fits(t, 2, 2) {
            assert(t.subrange(2, 4)[0] == t[2]);
            assert(t.subrange(2, 4)[1] == t[3]);
        }
        if i_fits(t, 2, 1) {
            assert(t.subrange(2, 3)[0] == t[2]);
        }
        assert(alteration_at(t, 0, t.len() as int) == Some((Alteration { degree: slot_degree(k) as u8, accidental: slot_accidental(k) as i8 }, h.len() as int)));
    } else if k == 1 {
        assert(h =~= seq!['b', '5']);
        lemma_no_word_at_accidental(t);
        assert(alteration_slot(slot_degree(k), slot_accidental(k)) == Some(1int));
        lemma_bit16_set(st.spec.alteration_bits, 1u16);
        assert(t.subrange(1, 2) =~= seq!['5']);
        if i_fits(t, 1, 2) {
            assert(t.subrange(1, 3)[0] == t[1]);
            assert(t.subrange(1, 3)[1] == t[2]);
        }
        if i_fits(t, 1, 1) {
            assert(t.subrange(1, 2)[0] == t[1]);
        }
        assert(alteration_at(t, 0, t.len() as int) == Some((Alteration { degree: slot_degree(k) as u8, accidental: slot_accidental(k) as i8 }, h.len() as int)));
    } else if k == 2 {
        assert(h =~= seq!['#', '5']);
        lemma_no_word_at_accidental(t);
        assert(alteration_slot(slot_degree(k), slot_accidental(k)) == Some(2int));
        lemma_bit16_set(st.spec.alteration_bits, 2u16);
        assert(t.subrange(1, 2) =~= seq!['5']);
        if i_fits(t, 1, 2) {
            assert(t.subrange(1, 3)[0] == t[1]);
            assert(t.subrange(1, 3)[1] == t[2]);
        }
        if i_fits(t, 1, 1) {
            assert(t.subrange(1, 2)[0] == t[1]);
        }
        assert(alteration_at(t, 0, t.len() as int) == Some((Alteration { degree: slot_degree(k) as u8, accidental: slot_accidental(k) as i8 }, h.len() as int)));
    } else if k == 3 {
        assert(h =~= seq!['#', '#', '5']);
        lemma_no_word_at_accidental(t);
        assert(alteration_slot(slot_degree(k), slot_accidental(k)) == Some(3int));
        lemma_bit16_set(st.spec.alteration_bits, 3u16);
        assert(t.subrange(2, 3) =~= seq!['5']);
        if i_fits(t, 2, 2) {
            assert(t.subrange(2, 4)[0] == t[2]);
            assert(t.subrange(2, 4)[1] == t[3]);
        }
        if i_fits(t, 2, 1) {
            assert(t.subrange(2, 3)[0] == t[2]);
        }
        assert(alteration_at(t, 0, t.len() as int) == Some((Alteration { degree: slot_degree(k) as u8, accidental: slot_accidental(k) as i8 }, h.len() as int)));
    } else if k == 4 {
        assert(h =~= seq!['b', 'b', '9']);
        lemma_no_word_at_accidental(t);
        assert(alteration_slot(slot_degree(k), slot_accidental(k)) == Some(4int));
        lemma_bit16_set(st.spec.alteration_bits, 4u16);
        assert(t.subrange(2, 3) =~= seq!['9']);
        if i_fits(t, 2, 2) {
            assert(t.subrange(2, 4)[0] == t[2]);
            assert(t.subrange(2, 4)[1] == t[3]);
        }
        if i_fits(t, 2, 1) {
            assert(t.subrange(2, 3)[0] == t[2]);
        }
        assert(alteration_at(t, 0, t.len() as int) == Some((Alteration { degree: slot_degree(k) as u8, accidental: slot_accidental(k) as i8 }, h.len() as int)));
    } else if k == 5 {
        assert(h =~= seq!['b', '9']);
        lemma_no_word_at_accidental(t);
        assert(alteration_slot(slot_degree(k), slot_accidental(k)) == Some(5int));
        lemma_bit16_set(st.spec.alteration_bits, 5u16);
        assert(t.subrange(1, 2) =~= seq!['9']);
        if i_fits(t, 1, 2) {
            assert(t.subrange(1, 3)[0] == t[1]);
            assert(t.subrange(1, 3)[1] == t[2]);
        }
        if i_fits(t, 1, 1) {
            assert(t.subrange(1, 2)[0] == t[1]);
        }
        assert(alteration_at(t, 0, t.len() as int) == Some((Alteration { degree: slot_degree(k) as u8, accidental: slot_accidental(k) as i8 }, h.len() as int)));
    } else if k == 6 {
        assert(h =~= seq!['#', '9']);
        lemma_no_word_at_accidental(t);
        assert(alteration_slot(slot_degree(k), slot_accidental(k)) == Some(6int));
        lemma_bit16_set(st.spec.alteration_bits, 6u16);
        assert(t.subrange(1, 2) =~= seq!['9']);
        if i_fits(t, 1, 2) {
            assert(t.subrange(1, 3)[0] == t[1]);
            assert(t.subrange(1, 3)[1] == t[2]);
        }
        if i_fits(t, 1, 1) {
            assert(t.subrange(1, 2)[0] == t[1]);
        }
        assert(alteration_at(t, 0, t.len() as int) == Some((Alteration { degree: slot_degree(k) as u8, accidental: slot_accidental(k) as i8 }, h.len() as int)));
    } else if k == 7 {
        assert(h =~= seq!['#', '#', '9']);
        lemma_no_word_at_accidental(t);
        assert(alteration_slot(slot_degree(k), slot_accidental(k)) == Some(7int));
        lemma_bit16_set(st.spec.alteration_bits, 7u16);
        assert(t.subrange(2, 3) =~= seq!['9']);
        if i_fits(t, 2, 2) {
            assert(t.subrange(2, 4)[0] == t[2]);
            assert(t.subrange(2, 4)[1] == t[3]);
        }
        if i_fits(t, 2, 1) {
            assert(t.subrange(2, 3)[0] == t[2]);
        }
        assert(alteration_at(t, 0, t.len() as int) == Some((Alteration { degree: slot_degree(k) as u8, accidental: slot_accidental(k) as i8 }, h.len() as int)));
    } else if k == 8 {
        assert(h =~= seq!['b', 'b', '1', '1']);
        lemma_no_word_at_accidental(t);
        assert(alteration_slot(slot_degree(k), slot_accidental(k)) == Some(8int));
        lemma_bit16_set(st.spec.alteration_bits, 8u16);
        assert(t.subrange(2, 4) =~= seq!['1', '1']);
        if i_fits(t, 2, 2) {
            assert(t.subrange(2, 4)[0] == t[2]);
            assert(t.subrange(2, 4)[1] == t[3]);
        }
        if i_fits(t, 2, 1) {
            assert(t.subrange(2, 3)[0] == t[2]);
        }
        assert(alteration_at(t, 0, t.len() as int) == Some((Alteration { degree: slot_degree(k) as u8, accidental: slot_accidental(k) as i8 }, h.len() as int)));
    } else if k == 9 {
        assert(h =~= seq!['b', '1', '1']);
        lemma_no_word_at_accidental(t);
        assert(alteration_slot(slot_degree(k), slot_accidental(k)) == Some(9int));
        lemma_bit16_set(st.spec.alteration_bits, 9u16);
        assert(t.subrange(1, 3) =~= seq!['1', '1']);
        if i_fits(t, 1, 2) {
            assert(t.subrange(1, 3)[0] == t[1]);
            assert(t.subrange(1, 3)[1] == t[2]);
        }
        if i_fits(t, 1, 1) {
            assert(t.subrange(1, 2)[0] == t[1]);
        }
        assert(alteration_at(t, 0, t.len() as int) == Some((Alteration { degree: slot_degree(k) as u8, accidental: slot_accidental(k) as i8 }, h.len() as int)));
    } else if k == 10 {
        assert(h =~= seq!['#', '1', '1']);
        lemma_no_word_at_accidental(t);
        assert(alteration_slot(slot_degree(k), slot_accidental(k)) == Some(10int));
        lemma_bit16_set(st.spec.alteration_bits, 10u16);
        assert(t.subrange(1, 3) =~= seq!['1', '1']);
        if i_fits(t, 1, 2) {
            assert(t.subrange(1, 3)[0] == t[1]);
            assert(t.subrange(1, 3)[1] == t[2]);
        }
        if i_fits(t, 1, 1) {
            assert(t.subrange(1, 2)[0] == t[1]);
        }
        assert(alteration_at(t, 0, t.len() as int) == Some((Alteration { degree: slot_degree(k) as u8, accidental: slot_accidental(k) as i8 }, h.len() as int)));
    } else if k == 11 {
        assert(h =~= seq!['#', '#', '1', '1']);
        lemma_no_word_at_accidental(t);
        assert(alteration_slot(slot_degree(k), slot_accidental(k)) == Some(11int));
        lemma_bit16_set(st.spec.alteration_bits, 11u16);
        assert(t.subrange(2, 4) =~= seq!['1', '1']);
        if i_fits(t, 2, 2) {
            assert(t.subrange(2, 4)[0] == t[2]);
            assert(t.subrange(2, 4)[1] == t[3]);
        }
        if i_fits(t, 2, 1) {
            assert(t.subrange(2, 3)[0] == t[2]);
        }
        assert(alteration_at(t, 0, t.len() as int) == Some((Alteration { degree: slot_degree(k) as u8, accidental: slot_accidental(k) as i8 }, h.len() as int)));
    } else if k == 12 {
        assert(h =~= seq!['b', 'b', '1', '3']);
        lemma_no_word_at_accidental(t);
        assert(alteration_slot(slot_degree(k), slot_accidental(k)) == Some(12int));
        lemma_bit16_set(st.spec.alteration_bits, 12u16);
        assert(t.subrange(2, 4) =~= seq!['1', '3']);
        if i_fits(t, 2, 2) {
            assert(t.subrange(2, 4)[0] == t[2]);
            assert(t.subrange(2, 4)[1] == t[3]);
        }
        if i_fits(t, 2, 1) {
            assert(t.subrange(2, 3)[0] == t[2]);
        }
        assert(alteration_at(t, 0, t.len() as int) == Some((Alteration { degree: slot_degree(k) as u8, accidental: slot_accidental(k) as i8 }, h.len() as int)));
    } else if k == 13 {
        assert(h =~= seq!['b', '1', '3']);
        lemma_no_word_at_accidental(t);
        assert(alteration_slot(slot_degree(k), slot_accidental(k)) == Some(13int));
        lemma_bit16_set(st.spec.alteration_bits, 13u16);
        assert(t.subrange(1, 3) =~= seq!['1', '3']);
        if i_fits(t, 1, 2) {
            assert(t.subrange(1, 3)[0] == t[1]);
            assert(t.subrange(1, 3)[1] == t[2]);
        }
        if i_fits(t, 1, 1) {
            assert(t.subrange(1, 2)[0] == t[1]);
        }
        assert(alteration_at(t, 0, t.len() as int) == Some((Alteration { degree: slot_degree(k) as u8, accidental: slot_accidental(k) as i8 }, h.len() as int)));
    } else if k == 14 {
        assert(h =~= seq!['#', '1', '3']);
        lemma_no_word_at_accidental(t);
        assert(alteration_slot(slot_degree(k), slot_accidental(k)) == Some(14int));
        lemma_bit16_set(st.spec.alteration_bits, 14u16);
        assert(t.subrange(1, 3) =~= seq!['1', '3']);
        if i_fits(t, 1, 2) {
            assert(t.subrange(1, 3)[0] == t[1]);
            assert(t.subrange(1, 3)[1] == t[2]);
        }
        if i_fits(t, 1, 1) {
            assert(t.subrange(1, 2)[0] == t[1]);
        }
        assert(alteration_at(t, 0, t.len() as int) == Some((Alteration { degree: slot_degree(k) as u8, accidental: slot_accidental(k) as i8 }, h.len() as int)));
    } else if k == 15 {
        assert(h =~= seq!['#', '#', '1', '3']);
        lemma_no_word_at_accidental(t);
        assert(alteration_slot(slot_degree(k), slot_accidental(k)) == Some(15int));
        lemma_bit16_set(st.spec.alteration_bits, 15u16);
        assert(t.subrange(2, 4) =~= seq!['1', '3']);
        if i_fits(t, 2, 2) {
            assert(t.subrange(2, 4)[0] == t[2]);
            assert(t.subrange(2, 4)[1] == t[3]);
        }
        if i_fits(t, 2, 1) {
            assert(t.subrange(2, 3)[0] == t[2]);
        }
        assert(alteration_at(t, 0, t.len() as int) == Some((Alteration { degree: slot_degree(k) as u8, accidental: slot_accidental(k) as i8 }, h.len() as int)));
    }
}

/// Reading back `alt` as the altered dominant prints it: at the start of
/// any text that begins with the suffix of an altered spec, the reader
/// finds the word for it, and applying it to any state that is not yet
/// altered gives an altered state.
pub proof fn lemma_alt_reads_back(spec: ChordSpec, t: Seq<char>, st: DescriptorState)
    requires
        spec.alt,
        spec.quality != Quality::Power,
        t.len() >= suffix_text(spec).len(),
        t.subrange(0, suffix_text(spec).len() as int) == suffix_text(spec),
        !st.spec.alt,
    ensures
        ({
            let found = token_at(t, 0);
            &&& found is Some
            &&& (found->0).1 == 3
            &&& apply_token(st, (found->0).0) is Some
            &&& (apply_token(st, (found->0).0)->0).spec.alt
        }),
{
    reveal(token_at);
    reveal(apply_token);
    reveal_strlit("\u{f8}7");
    reveal_strlit("\u{d8}7");
    reveal_strlit("\u{f8}");
    reveal_strlit("\u{d8}");
    reveal_strlit("alt");
    reveal_strlit("Alt");
    reveal_strlit("ALT");
    let h = suffix_text(spec);
    assert(h =~= seq!['a', 'l', 't']);
    assert forall|j: int| 0 <= j < h.len() implies #[trigger] t[j] == h[j] by {
        assert(t.subrange(0, h.len() as int)[j] == t[j]);
    }
    assert(!matches_at(t, 0, t.len() as int, descriptor_words(DescriptorWords::HalfDiminishedSeventh)[0])) by {
        let w = descriptor_words(DescriptorWords::HalfDiminishedSeventh)[0];
        assert(w == "\u{f8}7"@);
        if matches_at(t, 0, t.len() as int, w) {
            assert(t.subrange(0, w.len() as int)[0] == t[0]);
        }
    }
    assert(!matches_at(t, 0, t.len() as int, descriptor_words(DescriptorWords::HalfDiminishedSeventh)[1])) by {
        let w = descriptor_words(DescriptorWords::HalfDiminishedSeventh)[1];
        assert(w == "\u{d8}7"@);
        if matches_at(t, 0, t.len() as int, w) {
            assert(t.subrange(0, w.len() as int)[0] == t[0]);
        }
    }
    lemma_first_match_none(t, 0, t.len() as int, descriptor_words(DescriptorWords::HalfDiminishedSeventh));
    assert(!matches_at(t, 0, t.len() as int, descriptor_words(DescriptorWords::HalfDiminished)[0])) by {
        let w = descriptor_words(DescriptorWords::HalfDiminished)[0];
        assert(w == "\u{f8}"@);
        if matches_at(t, 0, t.len() as int, w) {
            assert(t.subrange(0, w.len() as int)[0] == t[0]);
        }
    }
    assert(!matches_at(t, 0, t.len() as int, descriptor_words(DescriptorWords::HalfDiminished)[1])) by {
        let w = descriptor_words(DescriptorWords::HalfDiminished)[1];
        assert(w == "\u{d8}"@);
        if matches_at(t, 0, t.len() as int, w) {
            assert(t.subrange(0, w.len() as int)[0] == t[0]);
        }
    }
    lemma_first_match_none(t, 0, t.len() as int, descriptor_words(DescriptorWords::HalfDiminished));
    assert(descriptor_words(DescriptorWords::Alt)[0] == "alt"@);
    assert(matches_at(t, 0, t.len() as int, descriptor_words(DescriptorWords::Alt)[0])) by {
        assert(t.subrange(0, 3) =~= seq!['a', 'l', 't']);
        assert(descriptor_words(DescriptorWords::Alt)[0] =~= seq!['a', 'l', 't']);
    }
}

/// Reading back a printed sixth: at the start of any text that begins
/// with a spec's `6/9`, or with its `6` not followed by `/` or `9`, the
/// reader finds the word for it, and applying it to any state without
/// numbered harmony or an added ninth gives a sixth, with an added ninth
/// for `6/9`.
pub proof fn lemma_sixth_reads_back(spec: ChordSpec, t: Seq<char>, st: DescriptorState)
    requires
        spec.sixth,
        t.len() >= sixth_text(spec).len(),
        t.subrange(0, sixth_text(spec).len() as int) == sixth_text(spec),
        !spec.has_add(9) ==> t.len() == 1 || (t[1] != '/' && t[1] != '9'),
        !numbered_harmony(st.spec),
        !st.spec.has_add(9),
    ensures
        ({
            let found = token_at(t, 0);
            &&& found is Some
            &&& (found->0).1 == sixth_text(spec).len()
            &&& apply_token(st, (found->0).0) is Some
            &&& (apply_token(st, (found->0).0)->0).spec.sixth
            &&& (apply_token(st, (found->0).0)->0).spec.has_add(9) == spec.has_add(9)
        }),
{
    reveal(token_at);
    reveal(apply_token);
    reveal_strlit("\u{f8}7");
    reveal_strlit("\u{d8}7");
    reveal_strlit("\u{f8}");
    reveal_strlit("\u{d8}");
    reveal_strlit("alt");
    reveal_strlit("Alt");
    reveal_strlit("ALT");
    reveal_strlit("maj13");
    reveal_strlit("Maj13");
    reveal_strlit("MAJ13");
    reveal_strlit("M13");
    reveal_strlit("\u{394}13");
    reveal_strlit("\u{25b3}13");
    reveal_strlit("maj11");
    reveal_strlit("Maj11");
    reveal_strlit("MAJ11");
    reveal_strlit("M11");
    reveal_strlit("\u{394}11");
    reveal_strlit("\u{25b3}11");
    reveal_strlit("maj9");
    reveal_strlit("Maj9");
    reveal_strlit("MAJ9");
    reveal_strlit("M9");
    reveal_strlit("\u{394}9");
    reveal_strlit("\u{25b3}9");
    reveal_strlit("maj7");
    reveal_strlit("Maj7");
    reveal_strlit("MAJ7");
    reveal_strlit("M7");
    reveal_strlit("\u{394}7");
    reveal_strlit("\u{25b3}7");
    reveal_strlit("\u{394}");
    reveal_strlit("\u{25b3}");
    reveal_strlit("sus2");
    reveal_strlit("Sus2");
    reveal_strlit("SUS2");
    reveal_strlit("sus4");
    reveal_strlit("Sus4");
    reveal_strlit("SUS4");
    reveal_strlit("sus");
    reveal_strlit("Sus");
    reveal_strlit("SUS");
    reveal_strlit("add13");
    reveal_strlit("add11");
    reveal_strlit("add4");
    reveal_strlit("add9");
    reveal_strlit("add2");
    reveal_strlit("omit5");
    reveal_strlit("no5");
    reveal_strlit("omit3");
    reveal_strlit("no3");
    reveal_strlit("omit1");
    reveal_strlit("no1");
    reveal_strlit("13");
    reveal_strlit("11");
    reveal_strlit("9");
    reveal_strlit("6/9");
    reveal_strlit("69");
    reveal_strlit("7");
    reveal_strlit("6");
    let h = sixth_text(spec);
    assert forall|j: int| 0 <= j < h.len() implies #[trigger] t[j] == h[j] by {
        assert(t.subrange(0, h.len() as int)[j] == t[j]);
    }
    if spec.has_add(9) {
        assert(h =~= seq!['6', '/', '9']);
        assert(!matches_at(t, 0, t.len() as int, descriptor_words(DescriptorWords::HalfDiminishedSeventh)[0])) by {
            let w = descriptor_words(DescriptorWords::HalfDiminishedSeventh)[0];
            assert(w == "\u{f8}7"@);
            if matches_at(t, 0, t.len() as int, w) {
                assert(t.subrange(0, w.len() as int)[0] == t[0]);
            }
        }
        assert(!matches_at(t, 0, t.len() as int, descriptor_words(DescriptorWords::HalfDiminishedSeventh)[1])) by {
            let w = descriptor_words(DescriptorWords::HalfDiminishedSeventh)[1];
            assert(w == "\u{d8}7"@);
            if matches_at(t, 0, t.len() as int, w) {
                assert(t.subrange(0, w.len() as int)[0] == t[0]);
            }
        }
        lemma_first_match_none(t, 0, t.len() as int, descriptor_words(DescriptorWords::HalfDiminishedSeventh));
        assert(!matches_at(t, 0, t.len() as int, descriptor_words(DescriptorWords::HalfDiminished)[0])) by {
            let w = descriptor_words(DescriptorWords::HalfDiminished)[0];
            assert(w == "\u{f8}"@);
            if matches_at(t, 0, t.len() as int, w) {
                assert(t.subrange(0, w.len() as int)[0] == t[0]);
            }
        }
        assert(!matches_at(t, 0, t.len() as int, descriptor_words(DescriptorWords::HalfDiminished)[1])) by {
            let w = descriptor_words(DescriptorWords::HalfDiminished)[1];
            assert(w == "\u{d8}"@);
            if matches_at(t, 0, t.len() as int, w) {
                assert(t.subrange(0, w.len() as int)[0] == t[0]);
            }
        }
        lemma_first_match_none(t, 0, t.len() as int, descriptor_words(DescriptorWords::HalfDiminished));
        assert(!matches_at(t, 0, t.len() as int, descriptor_words(DescriptorWords::Alt)[0])) by {
            let w = descriptor_words(DescriptorWords::Alt)[0];
            assert(w == "alt"@);
            if matches_at(t, 0, t.len() as int, w) {
                assert(t.subrange(0, w.len() as int)[0] == t[0]);
            }
        }
        assert(!matches_at(t, 0, t.len() as int, descriptor_words(DescriptorWords::Alt)[1])) by {
            let w = descriptor_words(DescriptorWords::Alt)[1];
            assert(w == "Alt"@);
            if matches_at(t, 0, t.len() as int, w) {
                assert(t.subrange(0, w.len() as int)[0] == t[0]);
            }
        }
        assert(!matches_at(t, 0, t.len() as int, descriptor_words(DescriptorWords::Alt)[2])) by {
            let w = descriptor_words(DescriptorWords::Alt)[2];
            assert(w == "ALT"@);
            if matches_at(t, 0, t.len() as int, w) {
                assert(t.subrange(0, w.len() as int)[0] == t[0]);
            }
        }
        lemma_first_match_none(t, 0, t.len() as int, descriptor_words(DescriptorWords::Alt));
        assert(!matches_at(t, 0, t.len() as int, descriptor_words(DescriptorWords::Major13)[0])) by {
            let w = descriptor_words(DescriptorWords::Major13)[0];
            assert(w == "maj13"@);
            if matches_at(t, 0, t.len() as int, w) {
                assert(t.subrange(0, w.len() as int)[0] == t[0]);
            }
        }
        assert(!matches_at(t, 0, t.len() as int, descriptor_words(DescriptorWords::Major13)[1])) by {
            let w = descriptor_words(DescriptorWords::Major13)[1];
            assert(w == "Maj13"@);
            if matches_at(t, 0, t.len() as int, w) {
                assert(t.subrange(0, w.len() as int)[0] == t[0]);
            }
        }
        assert(!matches_at(t, 0, t.len() as int, descriptor_words(DescriptorWords::Major13)[2])) by {
            let w = descriptor_words(DescriptorWords::Major13)[2];
            assert(w == "MAJ13"@);
            if matches_at(t, 0, t.len() as int, w) {
                assert(t.subrange(0, w.len() as int)[0] == t[0]);
            }
        }
        assert(!matches_at(t, 0, t.len() as int, descriptor_words(DescriptorWords::Major13)[3])) by {
            let w = descriptor_words(DescriptorWords::Major13)[3];
            assert(w == "M13"@);
            if matches_at(t, 0, t.len() as int, w) {
                assert(t.subrange(0, w.len() as int)[0] == t[0]);
            }
        }
        assert(!matches_at(t, 0, t.len() as int, descriptor_words(DescriptorWords::Major13)[4])) by {
            let w = descriptor_words(DescriptorWords::Major13)[4];
            assert(w == "\u{394}13"@);
            if matches_at(t, 0, t.len() as int, w) {
                assert(t.subrange(0, w.len() as int)[0] == t[0]);
            }
        }
        assert(!matches_at(t, 0, t.len() as int, descriptor_words(DescriptorWords::Major13)[5])) by {
            let w = descriptor_words(DescriptorWords::Major13)[5];
            assert(w == "\u{25b3}13"@);
            if matches_at(t, 0, t.len() as int, w) {
                assert(t.subrange(0, w.len() as int)[0] == t[0]);
            }
        }
        lemma_first_match_none(t, 0, t.len() as int, descriptor_words(DescriptorWords::Major13));
        assert(!matches_at(t, 0, t.len() as int, descriptor_words(DescriptorWords::Major11)[0])) by {
            let w = descriptor_words(DescriptorWords::Major11)[0];
            assert(w == "maj11"@);
            if matches_at(t, 0, t.len() as int, w) {
                assert(t.subrange(0, w.len() as int)[0] == t[0]);
            }
        }
        assert(!matches_at(t, 0, t.len() as int, descriptor_words(DescriptorWords::Major11)[1])) by {
            let w = descriptor_words(DescriptorWords::Major11)[1];
            assert(w == "Maj11"@);
            if matches_at(t, 0, t.len() as int, w) {
                assert(t.subrange(0, w.len() as int)[0] == t[0]);
            }
        }
        assert(!matches_at(t, 0, t.len() as int, descriptor_words(DescriptorWords::Major11)[2])) by {
            let w = descriptor_words(DescriptorWords::Major11)[2];
            assert(w == "MAJ11"@);
            if matches_at(t, 0, t.len() as int, w) {
                assert(t.subrange(0, w.len() as int)[0] == t[0]);
            }
        }
        assert(!matches_at(t, 0, t.len() as int, descriptor_words(DescriptorWords::Major11)[3])) by {
            let w = descriptor_words(DescriptorWords::Major11)[3];
            assert(w == "M11"@);
            if matches_at(t, 0, t.len() as int, w) {
                assert(t.subrange(0, w.len() as int)[0] == t[0]);
            }
        }
        assert(!matches_at(t, 0, t.len() as int, descriptor_words(DescriptorWords::Major11)[4])) by {
            let w = descriptor_words(DescriptorWords::Major11)[4];
            assert(w == "\u{394}11"@);
            if matches_at(t, 0, t.len() as int, w) {
                assert(t.subrange(0, w.len() as int)[0] == t[0]);
            }
        }
        assert(!matches_at(t, 0, t.len() as int, descriptor_words(DescriptorWords::Major11)[5])) by {
            let w = descriptor_words(DescriptorWords::Major11)[5];
            assert(w == "\u{25b3}11"@);
            if matches_at(t, 0, t.len() as int, w) {
                assert(t.subrange(0, w.len() as int)[0] == t[0]);
            }
        }
        lemma_first_match_none(t, 0, t.len() as int, descriptor_words(DescriptorWords::Major11));
        assert(!matches_at(t, 0, t.len() as int, descriptor_words(DescriptorWords::Major9)[0])) by {
            let w = descriptor_words(DescriptorWords::Major9)[0];
            assert(w == "maj9"@);
            if matches_at(t, 0, t.len() as int, w) {
                assert(t.subrange(0, w.len() as int)[0] == t[0]);
            }
        }
        assert(!matches_at(t, 0, t.len() as int, descriptor_words(DescriptorWords::Major9)[1])) by {
            let w = descriptor_words(DescriptorWords::Major9)[1];
            assert(w == "Maj9"@);
            if matches_at(t, 0, t.len() as int, w) {
                assert(t.subrange(0, w.len() as int)[0] == t[0]);
            }
        }
        assert(!matches_at(t, 0, t.len() as int, descriptor_words(DescriptorWords::Major9)[2])) by {
            let w = descriptor_words(DescriptorWords::Major9)[2];
            assert(w == "MAJ9"@);
            if matches_at(t, 0, t.len() as int, w) {
                assert(t.subrange(0, w.len() as int)[0] == t[0]);
            }
        }
        assert(!matches_at(t, 0, t.len() as int, descriptor_words(DescriptorWords::Major9)[3])) by {
            let w = descriptor_words(DescriptorWords::Major9)[3];
            assert(w == "M9"@);
            if matches_at(t, 0, t.len() as int, w) {
                assert(t.subrange(0, w.len() as int)[0] == t[0]);
            }
        }
        assert(!matches_at(t, 0, t.len() as int, descriptor_words(DescriptorWords::Major9)[4])) by {
            let w = descriptor_words(DescriptorWords::Major9)[4];
            assert(w == "\u{394}9"@);
            if matches_at(t, 0, t.len() as int, w) {
                assert(t.subrange(0, w.len() as int)[0] == t[0]);
            }
        }
        assert(!matches_at(t, 0, t.len() as int, descriptor_words(DescriptorWords::Major9)[5])) by {
            let w = descriptor_words(DescriptorWords::Major9)[5];
            assert(w == "\u{25b3}9"@);
            if matches_at(t, 0, t.len() as int, w) {
                assert(t.subrange(0, w.len() as int)[0] == t[0]);
            }
        }
        lemma_first_match_none(t, 0, t.len() as int, descriptor_words(DescriptorWords::Major9));
        assert(!matches_at(t, 0, t.len() as int, descriptor_words(DescriptorWords::Major7)[0])) by {
            let w = descriptor_words(DescriptorWords::Major7)[0];
            assert(w == "maj7"@);
            if matches_at(t, 0, t.len() as int, w) {
                assert(t.subrange(0, w.len() as int)[0] == t[0]);
            }
        }
        assert(!matches_at(t, 0, t.len() as int, descriptor_words(DescriptorWords::Major7)[1])) by {
            let w = descriptor_words(DescriptorWords::Major7)[1];
            assert(w == "Maj7"@);
            if matches_at(t, 0, t.len() as int, w) {
                assert(t.subrange(0, w.len() as int)[0] == t[0]);
            }
        }
        assert(!matches_at(t, 0, t.len() as int, descriptor_words(DescriptorWords::Major7)[2])) by {
            let w = descriptor_words(DescriptorWords::Major7)[2];
            assert(w == "MAJ7"@);
            if matches_at(t, 0, t.len() as int, w) {
                assert(t.subrange(0, w.len() as int)[0] == t[0]);
            }
        }
        assert(!matches_at(t, 0, t.len() as int, descriptor_words(DescriptorWords::Major7)[3])) by {
            let w = descriptor_words(DescriptorWords::Major7)[3];
            assert(w == "M7"@);
            if matches_at(t, 0, t.len() as int, w) {
                assert(t.subrange(0, w.len() as int)[0] == t[0]);
            }
        }
        assert(!matches_at(t, 0, t.len() as int, descriptor_words(DescriptorWords::Major7)[4])) by {
            let w = descriptor_words(DescriptorWords::Major7)[4];
            assert(w == "\u{394}7"@);
            if matches_at(t, 0, t.len() as int, w) {
                assert(t.subrange(0, w.len() as int)[0] == t[0]);
            }
        }
        assert(!matches_at(t, 0, t.len() as int, descriptor_words(DescriptorWords::Major7)[5])) by {
            let w = descriptor_words(DescriptorWords::Major7)[5];
            assert(w == "\u{25b3}7"@);
            if matches_at(t, 0, t.len() as int, w) {
                assert(t.subrange(0, w.len() as int)[0] == t[0]);
            }
        }
        assert(!matches_at(t, 0, t.len() as int, descriptor_words(DescriptorWords::Major7)[6])) by {
            let w = descriptor_words(DescriptorWords::Major7)[6];
            assert(w == "\u{394}"@);
            if matches_at(t, 0, t.len() as int, w) {
                assert(t.subrange(0, w.len() as int)[0] == t[0]);
            }
        }
        assert(!matches_at(t, 0, t.len() as int, descriptor_words(DescriptorWords::Major7)[7])) by {
            let w = descriptor_words(DescriptorWords::Major7)[7];
            assert(w == "\u{25b3}"@);
            if matches_at(t, 0, t.len() as int, w) {
                assert(t.subrange(0, w.len() as int)[0] == t[0]);
            }
        }
        lemma_first_match_none(t, 0, t.len() as int, descriptor_words(DescriptorWords::Major7));
        assert(!matches_at(t, 0, t.len() as int, descriptor_words(DescriptorWords::Sus2)[0])) by {
            let w = descriptor_words(DescriptorWords::Sus2)[0];
            assert(w == "sus2"@);
            if matches_at(t, 0, t.len() as int, w) {
                assert(t.subrange(0, w.len() as int)[0] == t[0]);
            }
        }
        assert(!matches_at(t, 0, t.len() as int, descriptor_words(DescriptorWords::Sus2)[1])) by {
            let w = descriptor_words(DescriptorWords::Sus2)[1];
            assert(w == "Sus2"@);
            if matches_at(t, 0, t.len() as int, w) {
                assert(t.subrange(0, w.len() as int)[0] == t[0]);
            }
        }
        assert(!matches_at(t, 0, t.len() as int, descriptor_words(DescriptorWords::Sus2)[2])) by {
            let w = descriptor_words(DescriptorWords::Sus2)[2];
            assert(w == "SUS2"@);
            if matches_at(t, 0, t.len() as int, w) {
                assert(t.subrange(0, w.len() as int)[0] == t[0]);
            }
        }
        lemma_first_match_none(t, 0, t.len() as int, descriptor_words(DescriptorWords::Sus2));
        assert(!matches_at(t, 0, t.len() as int, descriptor_words(DescriptorWords::Sus4)[0])) by {
            let w = descriptor_words(DescriptorWords::Sus4)[0];
            assert(w == "sus4"@);
            if matches_at(t, 0, t.len() as int, w) {
                assert(t.subrange(0, w.len() as int)[0] == t[0]);
            }
        }
        assert(!matches_at(t, 0, t.len() as int, descriptor_words(DescriptorWords::Sus4)[1])) by {
            let w = descriptor_words(DescriptorWords::Sus4)[1];
            assert(w == "Sus4"@);
            if matches_at(t, 0, t.len() as int, w) {
                assert(t.subrange(0, w.len() as int)[0] == t[0]);
            }
        }
        assert(!matches_at(t, 0, t.len() as int, descriptor_words(DescriptorWords::Sus4)[2])) by {
            let w = descriptor_words(DescriptorWords::Sus4)[2];
            assert(w == "SUS4"@);
            if matches_at(t, 0, t.len() as int, w) {
                assert(t.subrange(0, w.len() as int)[0] == t[0]);
            }
        }
        assert(!matches_at(t, 0, t.len() as int, descriptor_words(DescriptorWords::Sus4)[3])) by {
            let w = descriptor_words(DescriptorWords::Sus4)[3];
            assert(w == "sus"@);
            if matches_at(t, 0, t.len() as int, w) {
                assert(t.subrange(0, w.len() as int)[0] == t[0]);
            }
        }
        assert(!matches_at(t, 0, t.len() as int, descriptor_words(DescriptorWords::Sus4)[4])) by {
            let w = descriptor_words(DescriptorWords::Sus4)[4];
            assert(w == "Sus"@);
            if matches_at(t, 0, t.len() as int, w) {
                assert(t.subrange(0, w.len() as int)[0] == t[0]);
            }
        }
        assert(!matches_at(t, 0, t.len() as int, descriptor_words(DescriptorWords::Sus4)[5])) by {
            let w = descriptor_words(DescriptorWords::Sus4)[5];
            assert(w == "SUS"@);
            if matches_at(t, 0, t.len() as int, w) {
                assert(t.subrange(0, w.len() as int)[0] == t[0]);
            }
        }
        lemma_first_match_none(t, 0, t.len() as int, descriptor_words(DescriptorWords::Sus4));
        assert(!matches_at(t, 0, t.len() as int, descriptor_words(DescriptorWords::Add13)[0])) by {
            let w = descriptor_words(DescriptorWords::Add13)[0];
            assert(w == "add13"@);
            if matches_at(t, 0, t.len() as int, w) {
                assert(t.subrange(0, w.len() as int)[0] == t[0]);
            }
        }
        lemma_first_match_none(t, 0, t.len() as int, descriptor_words(DescriptorWords::Add13));
        assert(!matches_at(t, 0, t.len() as int, descriptor_words(DescriptorWords::Add11)[0])) by {
            let w = descriptor_words(DescriptorWords::Add11)[0];
            assert(w == "add11"@);
            if matches_at(t, 0, t.len() as int, w) {
                assert(t.subrange(0, w.len() as int)[0] == t[0]);
            }
        }
        assert(!matches_at(t, 0, t.len() as int, descriptor_words(DescriptorWords::Add11)[1])) by {
            let w = descriptor_words(DescriptorWords::Add11)[1];
            assert(w == "add4"@);
            if matches_at(t, 0, t.len() as int, w) {
                assert(t.subrange(0, w.len() as int)[0] == t[0]);
            }
        }
        lemma_first_match_none(t, 0, t.len() as int, descriptor_words(DescriptorWords::Add11));
        assert(!matches_at(t, 0, t.len() as int, descriptor_words(DescriptorWords::Add9)[0])) by {
            let w = descriptor_words(DescriptorWords::Add9)[0];
            assert(w == "add9"@);
            if matches_at(t, 0, t.len() as int, w) {
                assert(t.subrange(0, w.len() as int)[0] == t[0]);
            }
        }
        assert(!matches_at(t, 0, t.len() as int, descriptor_words(DescriptorWords::Add9)[1])) by {
            let w = descriptor_words(DescriptorWords::Add9)[1];
            assert(w == "add2"@);
            if matches_at(t, 0, t.len() as int, w) {
                assert(t.subrange(0, w.len() as int)[0] == t[0]);
            }
        }
        lemma_first_match_none(t, 0, t.len() as int, descriptor_words(DescriptorWords::Add9));
        assert(!matches_at(t, 0, t.len() as int, descriptor_words(DescriptorWords::No5)[0])) by {
            let w = descriptor_words(DescriptorWords::No5)[0];
            assert(w == "omit5"@);
            if matches_at(t, 0, t.len() as int, w) {
                assert(t.subrange(0, w.len() as int)[0] == t[0]);
            }
        }
        assert(!matches_at(t, 0, t.len() as int, descriptor_words(DescriptorWords::No5)[1])) by {
            let w = descriptor_words(DescriptorWords::No5)[1];
            assert(w == "no5"@);
            if matches_at(t, 0, t.len() as int, w) {
                assert(t.subrange(0, w.len() as int)[0] == t[0]);
            }
        }
        lemma_first_match_none(t, 0, t.len() as int, descriptor_words(DescriptorWords::No5));
        assert(!matches_at(t, 0, t.len() as int, descriptor_words(DescriptorWords::No3)[0])) by {
            let w = descriptor_words(DescriptorWords::No3)[0];
            assert(w == "omit3"@);
            if matches_at(t, 0, t.len() as int, w) {
                assert(t.subrange(0, w.len() as int)[0] == t[0]);
            }
        }
        assert(!matches_at(t, 0, t.len() as int, descriptor_words(DescriptorWords::No3)[1])) by {
            let w = descriptor_words(DescriptorWords::No3)[1];
            assert(w == "no3"@);
            if matches_at(t, 0, t.len() as int, w) {
                assert(t.subrange(0, w.len() as int)[0] == t[0]);
            }
        }
        lemma_first_match_none(t, 0, t.len() as int, descriptor_words(DescriptorWords::No3));
        assert(!matches_at(t, 0, t.len() as int, descriptor_words(DescriptorWords::No1)[0])) by {
            let w = descriptor_words(DescriptorWords::No1)[0];
            assert(w == "omit1"@);
            if matches_at(t, 0, t.len() as int, w) {
                assert(t.subrange(0, w.len() as int)[0] == t[0]);
            }
        }
        assert(!matches_at(t, 0, t.len() as int, descriptor_words(DescriptorWords::No1)[1])) by {
            let w = descriptor_words(DescriptorWords::No1)[1];
            assert(w == "no1"@);
            if matches_at(t, 0, t.len() as int, w) {
                assert(t.subrange(0, w.len() as int)[0] == t[0]);
            }
        }
        lemma_first_match_none(t, 0, t.len() as int, descriptor_words(DescriptorWords::No1));
        assert(!matches_at(t, 0, t.len() as int, descriptor_words(DescriptorWords::Thirteen)[0])) by {
            let w = descriptor_words(DescriptorWords::Thirteen)[0];
            assert(w == "13"@);
            if matches_at(t, 0, t.len() as int, w) {
                assert(t.subrange(0, w.len() as int)[0] == t[0]);
            }
        }
        lemma_first_match_none(t, 0, t.len() as int, descriptor_words(DescriptorWords::Thirteen));
        assert(!matches_at(t, 0, t.len() as int, descriptor_words(DescriptorWords::Eleven)[0])) by {
            let w = descriptor_words(DescriptorWords::Eleven)[0];
            assert(w == "11"@);
            if matches_at(t, 0, t.len() as int, w) {
                assert(t.subrange(0, w.len() as int)[0] == t[0]);
            }
        }
        lemma_first_match_none(t, 0, t.len() as int, descriptor_words(DescriptorWords::Eleven));
        assert(!matches_at(t, 0, t.len() as int, descriptor_words(DescriptorWords::Nine)[0])) by {
            let w = descriptor_words(DescriptorWords::Nine)[0];
            assert(w == "9"@);
            if matches_at(t, 0, t.len() as int, w) {
                assert(t.subrange(0, w.len() as int)[0] == t[0]);
            }
        }
        lemma_first_match_none(t, 0, t.len() as int, descriptor_words(DescriptorWords::Nine));
        assert(descriptor_words(DescriptorWords::SixNine)[0] == "6/9"@);
        assert(matches_at(t, 0, t.len() as int, descriptor_words(DescriptorWords::SixNine)[0])) by {
            assert(t.subrange(0, 3) =~= seq!['6', '/', '9']);
            assert(descriptor_words(DescriptorWords::SixNine)[0] =~= seq!['6', '/', '9']);
        }
        lemma_bit16_set(st.spec.add_bits, 0u16);
    } else {
        assert(h =~= seq!['6']);
        assert(!matches_at(t, 0, t.len() as int, descriptor_words(DescriptorWords::HalfDiminishedSeventh)[0])) by {
            let w = descriptor_words(DescriptorWords::HalfDiminishedSeventh)[0];
            assert(w == "\u{f8}7"@);
            if matches_at(t, 0, t.len() as int, w) {
                assert(t.subrange(0, w.len() as int)[0] == t[0]);
            }
        }
        assert(!matches_at(t, 0, t.len() as int, descriptor_words(DescriptorWords::HalfDiminishedSeventh)[1])) by {
            let w = descriptor_words(DescriptorWords::HalfDiminishedSeventh)[1];
            assert(w == "\u{d8}7"@);
            if matches_at(t, 0, t.len() as int, w) {
                assert(t.subrange(0, w.len() as int)[0] == t[0]);
            }
        }
        lemma_first_match_none(t, 0, t.len() as int, descriptor_words(DescriptorWords::HalfDiminishedSeventh));
        assert(!matches_at(t, 0, t.len() as int, descriptor_words(DescriptorWords::HalfDiminished)[0])) by {
            let w = descriptor_words(DescriptorWords::HalfDiminished)[0];
            assert(w == "\u{f8}"@);
            if matches_at(t, 0, t.len() as int, w) {
                assert(t.subrange(0, w.len() as int)[0] == t[0]);
            }
        }
        assert(!matches_at(t, 0, t.len() as int, descriptor_words(DescriptorWords::HalfDiminished)[1])) by {
            let w = descriptor_words(DescriptorWords::HalfDiminished)[1];
            assert(w == "\u{d8}"@);
            if matches_at(t, 0, t.len() as int, w) {
                assert(t.subrange(0, w.len() as int)[0] == t[0]);
            }
        }
        lemma_first_match_none(t, 0, t.len() as int, descriptor_words(DescriptorWords::HalfDiminished));
        assert(!matches_at(t, 0, t.len() as int, descriptor_words(DescriptorWords::Alt)[0])) by {
            let w = descriptor_words(DescriptorWords::Alt)[0];
            assert(w == "alt"@);
            if matches_at(t, 0, t.len() as int, w) {
                assert(t.subrange(0, w.len() as int)[0] == t[0]);
            }
        }
        assert(!matches_at(t, 0, t.len() as int, descriptor_words(DescriptorWords::Alt)[1])) by {
            let w = descriptor_words(DescriptorWords::Alt)[1];
            assert(w == "Alt"@);
            if matches_at(t, 0, t.len() as int, w) {
                assert(t.subrange(0, w.len() as int)[0] == t[0]);
            }
        }
        assert(!matches_at(t, 0, t.len() as int, descriptor_words(DescriptorWords::Alt)[2])) by {
            let w = descriptor_words(DescriptorWords::Alt)[2];
            assert(w == "ALT"@);
            if matches_at(t, 0, t.len() as int, w) {
                assert(t.subrange(0, w.len() as int)[0] == t[0]);
            }
        }
        lemma_first_match_none(t, 0, t.len() as int, descriptor_words(DescriptorWords::Alt));
        assert(!matches_at(t, 0, t.len() as int, descriptor_words(DescriptorWords::Major13)[0])) by {
            let w = descriptor_words(DescriptorWords::Major13)[0];
            assert(w == "maj13"@);
            if matches_at(t, 0, t.len() as int, w) {
                assert(t.subrange(0, w.len() as int)[0] == t[0]);
            }
        }
        assert(!matches_at(t, 0, t.len() as int, descriptor_words(DescriptorWords::Major13)[1])) by {
            let w = descriptor_words(DescriptorWords::Major13)[1];
            assert(w == "Maj13"@);
            if matches_at(t, 0, t.len() as int, w) {
                assert(t.subrange(0, w.len() as int)[0] == t[0]);
            }
        }
        assert(!matches_at(t, 0, t.len() as int, descriptor_words(DescriptorWords::Major13)[2])) by {
            let w = descriptor_words(DescriptorWords::Major13)[2];
            assert(w == "MAJ13"@);
            if matches_at(t, 0, t.len() as int, w) {
                assert(t.subrange(0, w.len() as int)[0] == t[0]);
            }
        }
        assert(!matches_at(t, 0, t.len() as int, descriptor_words(DescriptorWords::Major13)[3])) by {
            let w = descriptor_words(DescriptorWords::Major13)[3];
            assert(w == "M13"@);
            if matches_at(t, 0, t.len() as int, w) {
                assert(t.subrange(0, w.len() as int)[0] == t[0]);
            }
        }
        assert(!matches_at(t, 0, t.len() as int, descriptor_words(DescriptorWords::Major13)[4])) by {
            let w = descriptor_words(DescriptorWords::Major13)[4];
            assert(w == "\u{394}13"@);
            if matches_at(t, 0, t.len() as int, w) {
                assert(t.subrange(0, w.len() as int)[0] == t[0]);
            }
        }
        assert(!matches_at(t, 0, t.len() as int, descriptor_words(DescriptorWords::Major13)[5])) by {
            let w = descriptor_words(DescriptorWords::Major13)[5];
            assert(w == "\u{25b3}13"@);
            if matches_at(t, 0, t.len() as int, w) {
                assert(t.subrange(0, w.len() as int)[0] == t[0]);
            }
        }
        lemma_first_match_none(t, 0, t.len() as int, descriptor_words(DescriptorWords::Major13));
        assert(!matches_at(t, 0, t.len() as int, descriptor_words(DescriptorWords::Major11)[0])) by {
            let w = descriptor_words(DescriptorWords::Major11)[0];
            assert(w == "maj11"@);
            if matches_at(t, 0, t.len() as int, w) {
                assert(t.subrange(0, w.len() as int)[0] == t[0]);
            }
        }
        assert(!matches_at(t, 0, t.len() as int, descriptor_words(DescriptorWords::Major11)[1])) by {
            let w = descriptor_words(DescriptorWords::Major11)[1];
            assert(w == "Maj11"@);
            if matches_at(t, 0, t.len() as int, w) {
                assert(t.subrange(0, w.len() as int)[0] == t[0]);
            }
        }
        assert(!matches_at(t, 0, t.len() as int, descriptor_words(DescriptorWords::Major11)[2])) by {
            let w = descriptor_words(DescriptorWords::Major11)[2];
            assert(w == "MAJ11"@);
            if matches_at(t, 0, t.len() as int, w) {
                assert(t.subrange(0, w.len() as int)[0] == t[0]);
            }
        }
        assert(!matches_at(t, 0, t.len() as int, descriptor_words(DescriptorWords::Major11)[3])) by {
            let w = descriptor_words(DescriptorWords::Major11)[3];
            assert(w == "M11"@);
            if matches_at(t, 0, t.len() as int, w) {
                assert(t.subrange(0, w.len() as int)[0] == t[0]);
            }
        }
        assert(!matches_at(t, 0, t.len() as int, descriptor_words(DescriptorWords::Major11)[4])) by {
            let w = descriptor_words(DescriptorWords::Major11)[4];
            assert(w == "\u{394}11"@);
            if matches_at(t, 0, t.len() as int, w) {
                assert(t.subrange(0, w.len() as int)[0] == t[0]);
            }
        }
        assert(!matches_at(t, 0, t.len() as int, descriptor_words(DescriptorWords::Major11)[5])) by {
            let w = descriptor_words(DescriptorWords::Major11)[5];
            assert(w == "\u{25b3}11"@);
            if matches_at(t, 0, t.len() as int, w) {
                assert(t.subrange(0, w.len() as int)[0] == t[0]);
            }
        }
        lemma_first_match_none(t, 0, t.len() as int, descriptor_words(DescriptorWords::Major11));
        assert(!matches_at(t, 0, t.len() as int, descriptor_words(DescriptorWords::Major9)[0])) by {
            let w = descriptor_words(DescriptorWords::Major9)[0];
            assert(w == "maj9"@);
            if matches_at(t, 0, t.len() as int, w) {
                assert(t.subrange(0, w.len() as int)[0] == t[0]);
            }
        }
        assert(!matches_at(t, 0, t.len() as int, descriptor_words(DescriptorWords::Major9)[1])) by {
            let w = descriptor_words(DescriptorWords::Major9)[1];
            assert(w == "Maj9"@);
            if matches_at(t, 0, t.len() as int, w) {
                assert(t.subrange(0, w.len() as int)[0] == t[0]);
            }
        }
        assert(!matches_at(t, 0, t.len() as int, descriptor_words(DescriptorWords::Major9)[2])) by {
            let w = descriptor_words(DescriptorWords::Major9)[2];
            assert(w == "MAJ9"@);
            if matches_at(t, 0, t.len() as int, w) {
                assert(t.subrange(0, w.len() as int)[0] == t[0]);
            }
        }
        assert(!matches_at(t, 0, t.len() as int, descriptor_words(DescriptorWords::Major9)[3])) by {
            let w = descriptor_words(DescriptorWords::Major9)[3];
            assert(w == "M9"@);
            if matches_at(t, 0, t.len() as int, w) {
                assert(t.subrange(0, w.len() as int)[0] == t[0]);
            }
        }
        assert(!matches_at(t, 0, t.len() as int, descriptor_words(DescriptorWords::Major9)[4])) by {
            let w = descriptor_words(DescriptorWords::Major9)[4];
            assert(w == "\u{394}9"@);
            if matches_at(t, 0, t.len() as int, w) {
                assert(t.subrange(0, w.len() as int)[0] == t[0]);
            }
        }
        assert(!matches_at(t, 0, t.len() as int, descriptor_words(DescriptorWords::Major9)[5])) by {
            let w = descriptor_words(DescriptorWords::Major9)[5];
            assert(w == "\u{25b3}9"@);
            if matches_at(t, 0, t.len() as int, w) {
                assert(t.subrange(0, w.len() as int)[0] == t[0]);
            }
        }
        lemma_first_match_none(t, 0, t.len() as int, descriptor_words(DescriptorWords::Major9));
        assert(!matches_at(t, 0, t.len() as int, descriptor_words(DescriptorWords::Major7)[0])) by {
            let w = descriptor_words(DescriptorWords::Major7)[0];
            assert(w == "maj7"@);
            if matches_at(t, 0, t.len() as int, w) {
                assert(t.subrange(0, w.len() as int)[0] == t[0]);
            }
        }
        assert(!matches_at(t, 0, t.len() as int, descriptor_words(DescriptorWords::Major7)[1])) by {
            let w = descriptor_words(DescriptorWords::Major7)[1];
            assert(w == "Maj7"@);
            if matches_at(t, 0, t.len() as int, w) {
                assert(t.subrange(0, w.len() as int)[0] == t[0]);
            }
        }
        assert(!matches_at(t, 0, t.len() as int, descriptor_words(DescriptorWords::Major7)[2])) by {
            let w = descriptor_words(DescriptorWords::Major7)[2];
            assert(w == "MAJ7"@);
            if matches_at(t, 0, t.len() as int, w) {
                assert(t.subrange(0, w.len() as int)[0] == t[0]);
            }
        }
        assert(!matches_at(t, 0, t.len() as int, descriptor_words(DescriptorWords::Major7)[3])) by {
            let w = descriptor_words(DescriptorWords::Major7)[3];
            assert(w == "M7"@);
            if matches_at(t, 0, t.len() as int, w) {
                assert(t.subrange(0, w.len() as int)[0] == t[0]);
            }
        }
        assert(!matches_at(t, 0, t.len() as int, descriptor_words(DescriptorWords::Major7)[4])) by {
            let w = descriptor_words(DescriptorWords::Major7)[4];
            assert(w == "\u{394}7"@);
            if matches_at(t, 0, t.len() as int, w) {
                assert(t.subrange(0, w.len() as int)[0] == t[0]);
            }
        }
        assert(!matches_at(t, 0, t.len() as int, descriptor_words(DescriptorWords::Major7)[5])) by {
            let w = descriptor_words(DescriptorWords::Major7)[5];
            assert(w == "\u{25b3}7"@);
            if matches_at(t, 0, t.len() as int, w) {
                assert(t.subrange(0, w.len() as int)[0] == t[0]);
            }
        }
        assert(!matches_at(t, 0, t.len() as int, descriptor_words(DescriptorWords::Major7)[6])) by {
            let w = descriptor_words(DescriptorWords::Major7)[6];
            assert(w == "\u{394}"@);
            if matches_at(t, 0, t.len() as int, w) {
                assert(t.subrange(0, w.len() as int)[0] == t[0]);
            }
        }
        assert(!matches_at(t, 0, t.len() as int, descriptor_words(DescriptorWords::Major7)[7])) by {
            let w = descriptor_words(DescriptorWords::Major7)[7];
            assert(w == "\u{25b3}"@);
            if matches_at(t, 0, t.len() as int, w) {
                assert(t.subrange(0, w.len() as int)[0] == t[0]);
            }
        }
        lemma_first_match_none(t, 0, t.len() as int, descriptor_words(DescriptorWords::Major7));
        assert(!matches_at(t, 0, t.len() as int, descriptor_words(DescriptorWords::Sus2)[0])) by {
            let w = descriptor_words(DescriptorWords::Sus2)[0];
            assert(w == "sus2"@);
            if matches_at(t, 0, t.len() as int, w) {
                assert(t.subrange(0, w.len() as int)[0] == t[0]);
            }
        }
        assert(!matches_at(t, 0, t.len() as int, descriptor_words(DescriptorWords::Sus2)[1])) by {
            let w = descriptor_words(DescriptorWords::Sus2)[1];
            assert(w == "Sus2"@);
            if matches_at(t, 0, t.len() as int, w) {
                assert(t.subrange(0, w.len() as int)[0] == t[0]);
            }
        }
        assert(!matches_at(t, 0, t.len() as int, descriptor_words(DescriptorWords::Sus2)[2])) by {
            let w = descriptor_words(DescriptorWords::Sus2)[2];
            assert(w == "SUS2"@);
            if matches_at(t, 0, t.len() as int, w) {
                assert(t.subrange(0, w.len() as int)[0] == t[0]);
            }
        }
        lemma_first_match_none(t, 0, t.len() as int, descriptor_words(DescriptorWords::Sus2));
        assert(!matches_at(t, 0, t.len() as int, descriptor_words(DescriptorWords::Sus4)[0])) by {
            let w = descriptor_words(DescriptorWords::Sus4)[0];
            assert(w == "sus4"@);
            if matches_at(t, 0, t.len() as int, w) {
                assert(t.subrange(0, w.len() as int)[0] == t[0]);
            }
        }
        assert(!matches_at(t, 0, t.len() as int, descriptor_words(DescriptorWords::Sus4)[1])) by {
            let w = descriptor_words(DescriptorWords::Sus4)[1];
            assert(w == "Sus4"@);
            if matches_at(t, 0, t.len() as int, w) {
                assert(t.subrange(0, w.len() as int)[0] == t[0]);
            }
        }
        assert(!matches_at(t, 0, t.len() as int, descriptor_words(DescriptorWords::Sus4)[2])) by {
            let w = descriptor_words(DescriptorWords::Sus4)[2];
            assert(w == "SUS4"@);
            if matches_at(t, 0, t.len() as int, w) {
                assert(t.subrange(0, w.len() as int)[0] == t[0]);
            }
        }
        assert(!matches_at(t, 0, t.len() as int, descriptor_words(DescriptorWords::Sus4)[3])) by {
            let w = descriptor_words(DescriptorWords::Sus4)[3];
            assert(w == "sus"@);
            if matches_at(t, 0, t.len() as int, w) {
                assert(t.subrange(0, w.len() as int)[0] == t[0]);
            }
        }
        assert(!matches_at(t, 0, t.len() as int, descriptor_words(DescriptorWords::Sus4)[4])) by {
            let w = descriptor_words(DescriptorWords::Sus4)[4];
            assert(w == "Sus"@);
            if matches_at(t, 0, t.len() as int, w) {
                assert(t.subrange(0, w.len() as int)[0] == t[0]);
            }
        }
        assert(!matches_at(t, 0, t.len() as int, descriptor_words(DescriptorWords::Sus4)[5])) by {
            let w = descriptor_words(DescriptorWords::Sus4)[5];
            assert(w == "SUS"@);
            if matches_at(t, 0, t.len() as int, w) {
                assert(t.subrange(0, w.len() as int)[0] == t[0]);
            }
        }
        lemma_first_match_none(t, 0, t.len() as int, descriptor_words(DescriptorWords::Sus4));
        assert(!matches_at(t, 0, t.len() as int, descriptor_words(DescriptorWords::Add13)[0])) by {
            let w = descriptor_words(DescriptorWords::Add13)[0];
            assert(w == "add13"@);
            if matches_at(t, 0, t.len() as int, w) {
                assert(t.subrange(0, w.len() as int)[0] == t[0]);
            }
        }
        lemma_first_match_none(t, 0, t.len() as int, descriptor_words(DescriptorWords::Add13));
        assert(!matches_at(t, 0, t.len() as int, descriptor_words(DescriptorWords::Add11)[0])) by {
            let w = descriptor_words(DescriptorWords::Add11)[0];
            assert(w == "add11"@);
            if matches_at(t, 0, t.len() as int, w) {
                assert(t.subrange(0, w.len() as int)[0] == t[0]);
            }
        }
        assert(!matches_at(t, 0, t.len() as int, descriptor_words(DescriptorWords::Add11)[1])) by {
            let w = descriptor_words(DescriptorWords::Add11)[1];
            assert(w == "add4"@);
            if matches_at(t, 0, t.len() as int, w) {
                assert(t.subrange(0, w.len() as int)[0] == t[0]);
            }
        }
        lemma_first_match_none(t, 0, t.len() as int, descriptor_words(DescriptorWords::Add11));
        assert(!matches_at(t, 0, t.len() as int, descriptor_words(DescriptorWords::Add9)[0])) by {
            let w = descriptor_words(DescriptorWords::Add9)[0];
            assert(w == "add9"@);
            if matches_at(t, 0, t.len() as int, w) {
                assert(t.subrange(0, w.len() as int)[0] == t[0]);
            }
        }
        assert(!matches_at(t, 0, t.len() as int, descriptor_words(DescriptorWords::Add9)[1])) by {
            let w = descriptor_words(DescriptorWords::Add9)[1];
            assert(w == "add2"@);
            if matches_at(t, 0, t.len() as int, w) {
                assert(t.subrange(0, w.len() as int)[0] == t[0]);
            }
        }
        lemma_first_match_none(t, 0, t.len() as int, descriptor_words(DescriptorWords::Add9));
        assert(!matches_at(t, 0, t.len() as int, descriptor_words(DescriptorWords::No5)[0])) by {
            let w = descriptor_words(DescriptorWords::No5)[0];
            assert(w == "omit5"@);
            if matches_at(t, 0, t.len() as int, w) {
                assert(t.subrange(0, w.len() as int)[0] == t[0]);
            }
        }
        assert(!matches_at(t, 0, t.len() as int, descriptor_words(DescriptorWords::No5)[1])) by {
            let w = descriptor_words(DescriptorWords::No5)[1];
            assert(w == "no5"@);
            if matches_at(t, 0, t.len() as int, w) {
                assert(t.subrange(0, w.len() as int)[0] == t[0]);
            }
        }
        lemma_first_match_none(t, 0, t.len() as int, descriptor_words(DescriptorWords::No5));
        assert(!matches_at(t, 0, t.len() as int, descriptor_words(DescriptorWords::No3)[0])) by {
            let w = descriptor_words(DescriptorWords::No3)[0];
            assert(w == "omit3"@);
            if matches_at(t, 0, t.len() as int, w) {
                assert(t.subrange(0, w.len() as int)[0] == t[0]);
            }
        }
        assert(!matches_at(t, 0, t.len() as int, descriptor_words(DescriptorWords::No3)[1])) by {
            let w = descriptor_words(DescriptorWords::No3)[1];
            assert(w == "no3"@);
            if matches_at(t, 0, t.len() as int, w) {
                assert(t.subrange(0, w.len() as int)[0] == t[0]);
            }
        }
        lemma_first_match_none(t, 0, t.len() as int, descriptor_words(DescriptorWords::No3));
        assert(!matches_at(t, 0, t.len() as int, descriptor_words(DescriptorWords::No1)[0])) by {
            let w = descriptor_words(DescriptorWords::No1)[0];
            assert(w == "omit1"@);
            if matches_at(t, 0, t.len() as int, w) {
                assert(t.subrange(0, w.len() as int)[0] == t[0]);
            }
        }
        assert(!matches_at(t, 0, t.len() as int, descriptor_words(DescriptorWords::No1)[1])) by {
            let w = descriptor_words(DescriptorWords::No1)[1];
            assert(w == "no1"@);
            if matches_at(t, 0, t.len() as int, w) {
                assert(t.subrange(0, w.len() as int)[0] == t[0]);
            }
        }
        lemma_first_match_none(t, 0, t.len() as int, descriptor_words(DescriptorWords::No1));
        assert(!matches_at(t, 0, t.len() as int, descriptor_words(DescriptorWords::Thirteen)[0])) by {
            let w = descriptor_words(DescriptorWords::Thirteen)[0];
            assert(w == "13"@);
            if matches_at(t, 0, t.len() as int, w) {
                assert(t.subrange(0, w.len() as int)[0] == t[0]);
            }
        }
        lemma_first_match_none(t, 0, t.len() as int, descriptor_words(DescriptorWords::Thirteen));
        assert(!matches_at(t, 0, t.len() as int, descriptor_words(DescriptorWords::Eleven)[0])) by {
            let w = descriptor_words(DescriptorWords::Eleven)[0];
            assert(w == "11"@);
            if matches_at(t, 0, t.len() as int, w) {
                assert(t.subrange(0, w.len() as int)[0] == t[0]);
            }
        }
        lemma_first_match_none(t, 0, t.len() as int, descriptor_words(DescriptorWords::Eleven));
        assert(!matches_at(t, 0, t.len() as int, descriptor_words(DescriptorWords::Nine)[0])) by {
            let w = descriptor_words(DescriptorWords::Nine)[0];
            assert(w == "9"@);
            if matches_at(t, 0, t.len() as int, w) {
                assert(t.subrange(0, w.len() as int)[0] == t[0]);
            }
        }
        lemma_first_match_none(t, 0, t.len() as int, descriptor_words(DescriptorWords::Nine));
        assert(!matches_at(t, 0, t.len() as int, descriptor_words(DescriptorWords::SixNine)[0])) by {
            let w = descriptor_words(DescriptorWords::SixNine)[0];
            assert(w == "6/9"@);
            if matches_at(t, 0, t.len() as int, w) {
                assert(t.subrange(0, w.len() as int)[1] == t[1]);
            }
        }
        assert(!matches_at(t, 0, t.len() as int, descriptor_words(DescriptorWords::SixNine)[1])) by {
            let w = descriptor_words(DescriptorWords::SixNine)[1];
            assert(w == "69"@);
            if matches_at(t, 0, t.len() as int, w) {
                assert(t.subrange(0, w.len() as int)[1] == t[1]);
            }
        }
        lemma_first_match_none(t, 0, t.len() as int, descriptor_words(DescriptorWords::SixNine));
        assert(!matches_at(t, 0, t.len() as int, descriptor_words(DescriptorWords::Seven)[0])) by {
            let w = descriptor_words(DescriptorWords::Seven)[0];
            assert(w == "7"@);
            if matches_at(t, 0, t.len() as int, w) {
                assert(t.subrange(0, w.len() as int)[0] == t[0]);
            }
        }
        lemma_first_match_none(t, 0, t.len() as int, descriptor_words(DescriptorWords::Seven));
        assert(descriptor_words(DescriptorWords::Six)[0] == "6"@);
        assert(matches_at(t, 0, t.len() as int, descriptor_words(DescriptorWords::Six)[0])) by {
            assert(t.subrange(0, 1) =~= seq!['6']);
            assert(descriptor_words(DescriptorWords::Six)[0] =~= seq!['6']);
        }
    }
}

/// The canonical form of a valid spec: a power chord has nothing else, and
/// `alt` is a dominant seventh.
pub open spec fn normalized_descriptor(spec: ChordSpec) -> ChordSpec {
    if spec.quality == Quality::Power {
        ChordSpec { quality: Quality::Power, ..plain_major() }
    } else if spec.alt {
        ChordSpec { quality: Quality::Major, seventh: Seventh::Minor, ..spec }
    } else {
        spec
    }
}

/// The spec that descriptor text `t`, its groups opened, stands for.
pub open spec fn descriptor_spec(t: Seq<char>) -> Option<ChordSpec> {
    let start = descriptor_start(t);
    match descriptor_run(t, start.1, start.0) {
        Some(st) => if descriptor_valid(st.spec) {
            Some(normalized_descriptor(st.spec))
        } else {
            None
        },
        None => None,
    }
}

/// The spec that the descriptor `s[lo..hi]` stands for.
pub open spec fn parsed_descriptor(s: Seq<char>, lo: int, hi: int) -> Option<ChordSpec> {
    match descriptor_text(s, lo, hi) {
        Some(t) => descriptor_spec(t),
        None => None,
    }
}

/// The quality written at the start of `text`, with its length.
fn lead_quality_of(text: &[char], end: usize) -> (r: Option<(Quality, usize)>)
    requires
        end == text@.len(),
    ensures
        r is None <==> lead_quality(text@) is None,
        r matches Some((q, n)) ==> lead_quality(text@) == Some((q, n as int)) && 0 < n <= end,
{
    let major_extension = take_words(text, 0, end, DescriptorWords::MajorExtension).is_some();
    if !major_extension {
        if let Some(n) = take_words(text, 0, end, DescriptorWords::MajorWord) {
            return Some((Quality::Major, n));
        }
        if let Some(n) = take_words(text, 0, end, DescriptorWords::MinorWord) {
            return Some((Quality::Minor, n));
        }
        if let Some(n) = take_words(text, 0, end, DescriptorWords::MajorLetter) {
            return Some((Quality::Major, n));
        }
    }
    if let Some(n) = take_words(text, 0, end, DescriptorWords::Diminished) {
        return Some((Quality::Diminished, n));
    }
    if let Some(n) = take_words(text, 0, end, DescriptorWords::Augmented) {
        return Some((Quality::Augmented, n));
    }
    if let Some(n) = take_words(text, 0, end, DescriptorWords::Sus2) {
        return Some((Quality::Sus2, n));
    }
    if let Some(n) = take_words(text, 0, end, DescriptorWords::Sus4) {
        return Some((Quality::Sus4, n));
    }
    if let Some(n) = take_words(text, 0, end, DescriptorWords::Power) {
        return Some((Quality::Power, n));
    }
    None
}

/// The token at `text[pos..]` with the position after it.
fn next_token(text: &[char], pos: usize, end: usize) -> (r: Option<(DescriptorToken, usize)>)
    requires
        pos <= end == text@.len(),
    ensures
        r is None <==> token_at(text@, pos as int) is None,
        r matches Some((token, n)) ==> token_at(text@, pos as int) == Some((token, n as int)) && pos < n
            <= end,
        r matches Some((DescriptorToken::Altered(a), _)) ==> alteration_slot(
            a.degree as int,
            a.accidental as int,
        ) is Some,
{
    proof {
        reveal(token_at);
    }
    if let Some(n) = take_words(text, pos, end, DescriptorWords::HalfDiminishedSeventh) {
        return Some((DescriptorToken::Word(DescriptorWords::HalfDiminishedSeventh), n));
    }
    if let Some(n) = take_words(text, pos, end, DescriptorWords::HalfDiminished) {
        return Some((DescriptorToken::Word(DescriptorWords::HalfDiminished), n));
    }
    if let Some(n) = take_words(text, pos, end, DescriptorWords::Alt) {
        return Some((DescriptorToken::Word(DescriptorWords::Alt), n));
    }
    if let Some(n) = take_words(text, pos, end, DescriptorWords::Major13) {
        return Some((DescriptorToken::Word(DescriptorWords::Major13), n));
    }
    if let Some(n) = take_words(text, pos, end, DescriptorWords::Major11) {
        return Some((DescriptorToken::Word(DescriptorWords::Major11), n));
    }
    if let Some(n) = take_words(text, pos, end, DescriptorWords::Major9) {
        return Some((DescriptorToken::Word(DescriptorWords::Major9), n));
    }
    if let Some(n) = take_words(text, pos, end, DescriptorWords::Major7) {
        return Some((DescriptorToken::Word(DescriptorWords::Major7), n));
    }
    if let Some(n) = take_words(text, pos, end, DescriptorWords::Sus2) {
        return Some((DescriptorToken::Word(DescriptorWords::Sus2), n));
    }
    if let Some(n) = take_words(text, pos, end, DescriptorWords::Sus4) {
        return Some((DescriptorToken::Word(DescriptorWords::Sus4), n));
    }
    if let Some(n) = take_words(text, pos, end, DescriptorWords::Add13) {
        return Some((DescriptorToken::Word(DescriptorWords::Add13), n));
    }
    if let Some(n) = take_words(text, pos, end, DescriptorWords::Add11) {
        return Some((DescriptorToken::Word(DescriptorWords::Add11), n));
    }
    if let Some(n) = take_words(text, pos, end, DescriptorWords::Add9) {
        return Some((DescriptorToken::Word(DescriptorWords::Add9), n));
    }
    if let Some(n) = take_words(text, pos, end, DescriptorWords::No5) {
        return Some((DescriptorToken::Word(DescriptorWords::No5), n));
    }
    if let Some(n) = take_words(text, pos, end, DescriptorWords::No3) {
        return Some((DescriptorToken::Word(DescriptorWords::No3), n));
    }
    if let Some(n) = take_words(text, pos, end, DescriptorWords::No1) {
        return Some((DescriptorToken::Word(DescriptorWords::No1), n));
    }
    if let Some(n) = take_words(text, pos, end, DescriptorWords::Thirteen) {
        return Some((DescriptorToken::Word(DescriptorWords::Thirteen), n));
    }
    if let Some(n) = take_words(text, pos, end, DescriptorWords::Eleven) {
        return Some((DescriptorToken::Word(DescriptorWords::Eleven), n));
    }
    if let Some(n) = take_words(text, pos, end, DescriptorWords::Nine) {
        return Some((DescriptorToken::Word(DescriptorWords::Nine), n));
    }
    if let Some(n) = take_words(text, pos, end, DescriptorWords::SixNine) {
        return Some((DescriptorToken::Word(DescriptorWords::SixNine), n));
    }
    if let Some(n) = take_words(text, pos, end, DescriptorWords::Seven) {
        return Some((DescriptorToken::Word(DescriptorWords::Seven), n));
    }
    if let Some(n) = take_words(text, pos, end, DescriptorWords::Six) {
        return Some((DescriptorToken::Word(DescriptorWords::Six), n));
    }
    match take_alteration(text, pos, end) {
        Some((a, n)) => Some((DescriptorToken::Altered(a), n)),
        None => None,
    }
}

/// Reads one token into the spec, failing where it conflicts with what was
/// read.
fn apply_descriptor_token(
    spec: &mut ChordSpec,
    explicit_quality: &mut bool,
    half_diminished_can_extend: &mut bool,
    token: DescriptorToken,
) -> (r: Result<(), ChordClawError>)
    requires
        parse_state_ok(*old(spec)),
        token matches DescriptorToken::Altered(a) ==> alteration_slot(a.degree as int, a.accidental as int) is Some,
    ensures
        parse_state_ok(*final(spec)),
        r is Err <==> apply_token(
            DescriptorState {
                spec: *old(spec),
                explicit_quality: *old(explicit_quality),
                half_diminished_can_extend: *old(half_diminished_can_extend),
            },
            token,
        ) is None,
        r is Ok ==> apply_token(
            DescriptorState {
                spec: *old(spec),
                explicit_quality: *old(explicit_quality),
                half_diminished_can_extend: *old(half_diminished_can_extend),
            },
            token,
        ) == Some(
            DescriptorState {
                spec: *final(spec),
                explicit_quality: *final(explicit_quality),
                half_diminished_can_extend: *final(half_diminished_can_extend),
            },
        ),
{
    proof {
        reveal(apply_token);
    }
    match token {
        DescriptorToken::Altered(alteration) => {
            if spec.contains_alteration(alteration) {
                let mut msg: Vec<char> = Vec::new();
                push_str(&mut msg, "invalid chord descriptor: duplicate or conflicting '");
                push_alteration_prefix(&mut msg, alteration.accidental);
                push_decimal(&mut msg, alteration.degree as u32);
                msg.push('\'');
                return Err(ChordClawError::from_chars(&msg));
            }
            upsert_alteration(spec, alteration);
            Ok(())
        },
        DescriptorToken::Word(w) => match w {
            DescriptorWords::HalfDiminishedSeventh => set_half_diminished(
                spec,
                explicit_quality,
                "\u{f8}7",
            ),
            DescriptorWords::HalfDiminished => {
                set_half_diminished(spec, explicit_quality, "\u{f8}")?;
                *half_diminished_can_extend = true;
                Ok(())
            },
            DescriptorWords::Alt => {
                if spec.alt {
                    return Err(duplicate_descriptor("alt"));
                }
                spec.alt = true;
                Ok(())
            },
            DescriptorWords::Major13 => set_extension(spec, Extension::Thirteenth, Seventh::Major, "maj13"),
            DescriptorWords::Major11 => set_extension(spec, Extension::Eleventh, Seventh::Major, "maj11"),
            DescriptorWords::Major9 => set_extension(spec, Extension::Ninth, Seventh::Major, "maj9"),
            DescriptorWords::Major7 => set_seventh(spec, Seventh::Major, "maj7"),
            DescriptorWords::Sus2 => set_quality(spec, explicit_quality, Quality::Sus2, "sus2"),
            DescriptorWords::Sus4 => set_quality(spec, explicit_quality, Quality::Sus4, "sus4"),
            DescriptorWords::Add13 => push_unique_add(spec, 13, "add13"),
            DescriptorWords::Add11 => push_unique_add(spec, 11, "add11"),
            DescriptorWords::Add9 => push_unique_add(spec, 9, "add9"),
            DescriptorWords::No5 => push_unique_omission(spec, 5, "no5"),
            DescriptorWords::No3 => push_unique_omission(spec, 3, "no3"),
            DescriptorWords::No1 => push_unique_omission(spec, 1, "no1"),
            DescriptorWords::Thirteen => {
                let seventh = default_seventh_for_extension(spec.quality);
                set_extension_or_half_diminished_extension(
                    spec,
                    half_diminished_can_extend,
                    Extension::Thirteenth,
                    seventh,
                    "13",
                )
            },
            DescriptorWords::Eleven => {
                let seventh = default_seventh_for_extension(spec.quality);
                set_extension_or_half_diminished_extension(
                    spec,
                    half_diminished_can_extend,
                    Extension::Eleventh,
                    seventh,
                    "11",
                )
            },
            DescriptorWords::Nine => {
                let seventh = default_seventh_for_extension(spec.quality);
                set_extension_or_half_diminished_extension(
                    spec,
                    half_diminished_can_extend,
                    Extension::Ninth,
                    seventh,
                    "9",
                )
            },
            DescriptorWords::SixNine => set_six_nine(spec),
            DescriptorWords::Seven => {
                let seventh = if spec.quality == Quality::Diminished {
                    Seventh::Diminished
                } else {
                    Seventh::Minor
                };
                set_seventh(spec, seventh, "7")
            },
            DescriptorWords::Six => set_sixth(spec),
            _ => Err(descriptor_error("invalid chord descriptor: misplaced quality")),
        },
    }
}

/// Parses a chord descriptor such as `m7b5`, `maj9`, `7sus4`, `6/9`, or
/// `(add9)`.
pub fn parse_descriptor(s: &[char], lo: usize, hi: usize) -> (r: Result<ChordSpec, ChordClawError>)
    requires
        lo <= hi <= s@.len(),
    ensures
        r is Ok <==> parsed_descriptor(s@, lo as int, hi as int) is Some,
        r matches Ok(spec) ==> parsed_descriptor(s@, lo as int, hi as int) == Some(spec),
        r matches Ok(spec) ==> parse_state_ok(spec),
{
    let text_vec = normalize_descriptor_text(s, lo, hi)?;
    let text = text_vec.as_slice();
    let end = text_vec.len();
    let ghost t = text@;
    let mut spec = ChordSpec::major();
    let mut explicit_quality = false;
    let mut half_diminished_can_extend = false;
    let mut rest: usize = 0;
    if let Some((quality, next)) = lead_quality_of(text, end) {
        spec.quality = quality;
        explicit_quality = true;
        rest = next;
    }
    let ghost start = descriptor_start(t);
    assert(start.0 == (DescriptorState { spec, explicit_quality, half_diminished_can_extend }));
    while rest < end
        invariant
            0 <= rest <= end == text@.len(),
            t == text@,
            descriptor_text(s@, lo as int, hi as int) == Some(t),
            start == descriptor_start(t),
            parse_state_ok(spec),
            descriptor_run(t, start.1, start.0) == descriptor_run(
                t,
                rest as int,
                DescriptorState { spec, explicit_quality, half_diminished_can_extend },
            ),
        decreases end - rest,
    {
        match next_token(text, rest, end) {
            Some((token, next)) => {
                proof {
                    lemma_run_step(
                        t,
                        rest as int,
                        DescriptorState { spec, explicit_quality, half_diminished_can_extend },
                        token,
                        next as int,
                    );
                }
                apply_descriptor_token(
                    &mut spec,
                    &mut explicit_quality,
                    &mut half_diminished_can_extend,
                    token,
                )?;
                rest = next;
            },
            None => {
                let mut msg: Vec<char> = Vec::new();
                push_str(&mut msg, "unknown chord descriptor near '");
                push_range(&mut msg, text, rest, end);
                msg.push('\'');
                return Err(ChordClawError::from_chars(&msg));
            },
        }
    }
    validate_descriptor(&spec)?;
    normalize_spec(&mut spec);
    Ok(spec)
}

} // verus!
