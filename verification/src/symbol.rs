use vstd::prelude::*;

use crate::bits::{bit16, lemma_zero16, set_bit16, test_bit16};
use crate::formula::{
    bass_keeps_tone_spelling, formula_sound, formula_tone, reject_enharmonic_chord_tone_bass,
    reject_redundant_formula, reject_redundant_root_bass, slots_from, spec_tones, ChordFormula,
};
use crate::notes::{note_text, push_range, NoteName};
use crate::parse::{
    bass_slash, normalize_chart_glyphs, normalized_glyphs, note_fills, note_prefix, parse_descriptor,
    parse_note_prefix, parsed_descriptor, six_nine_slash, split_bass, two_bass_slashes,
};
use crate::text::{chars_to_string, decimal, push_decimal, push_str, str_to_chars, trim_bounds, trimmed};
use crate::ChordClawError;

verus! {

/// The triad quality of a chord.
#[derive(Copy, Clone, Debug, Eq, PartialEq, Structural, Hash)]
pub enum Quality {
    Major,
    Minor,
    Diminished,
    Augmented,
    Sus2,
    Sus4,
    Power,
}

/// The seventh of a chord, if any.
#[derive(Copy, Clone, Debug, Eq, PartialEq, Structural, Hash)]
pub enum Seventh {
    Absent,
    Minor,
    Major,
    Diminished,
}

/// The highest stacked extension of a chord.
#[derive(Copy, Clone, Debug, Eq, PartialEq, Structural, Hash)]
pub enum Extension {
    Ninth,
    Eleventh,
    Thirteenth,
}

/// An altered chord degree, such as `b9` (degree 9, accidental -1).
#[derive(Copy, Clone, Debug, Default, Eq, PartialEq, Structural, Hash)]
pub struct Alteration {
    pub degree: u8,
    pub accidental: i8,
}

/// The alterations the identification grammar supports.
pub open spec fn supported_alteration(degree: int, accidental: int) -> bool {
    (degree == 5 && (accidental == -1 || accidental == 1)) || (degree == 9 && (accidental == -1
        || accidental == 1)) || (degree == 11 && accidental == 1) || (degree == 13 && accidental
        == -1)
}

/// Whether the grammar supports altering `degree` by `accidental`.
pub fn is_supported_alteration(degree: u8, accidental: i8) -> (b: bool)
    ensures
        b == supported_alteration(degree as int, accidental as int),
{
    (degree == 5 && (accidental == -1 || accidental == 1)) || (degree == 9 && (accidental == -1
        || accidental == 1)) || (degree == 11 && accidental == 1) || (degree == 13 && accidental
        == -1)
}

/// The degree stored in alteration slot `k`: 5, 9, 11, 13 in groups of four.
pub open spec fn slot_degree(k: int) -> int {
    let d = k / 4;
    if d == 0 {
        5
    } else if d == 1 {
        9
    } else if d == 2 {
        11
    } else {
        13
    }
}

/// The accidental stored in alteration slot `k`: -2, -1, +1, +2.
pub open spec fn slot_accidental(k: int) -> int {
    let a = k % 4;
    if a == 0 {
        -2
    } else if a == 1 {
        -1
    } else if a == 2 {
        1
    } else {
        2
    }
}

/// The slot of an alteration, when its degree and accidental have one.
pub open spec fn alteration_slot(degree: int, accidental: int) -> Option<int> {
    let d = if degree == 5 {
        0
    } else if degree == 9 {
        1
    } else if degree == 11 {
        2
    } else if degree == 13 {
        3
    } else {
        -1
    };
    let a = if accidental == -2 {
        0
    } else if accidental == -1 {
        1
    } else if accidental == 1 {
        2
    } else if accidental == 2 {
        3
    } else {
        -1
    };
    if d < 0 || a < 0 {
        None
    } else {
        Some(d * 4 + a)
    }
}

/// Slot of an alteration, when it has one.
pub fn slot_of(degree: u8, accidental: i8) -> (r: Option<u16>)
    ensures
        r matches Some(k) ==> alteration_slot(degree as int, accidental as int) == Some(k as int)
            && k < 16,
        r is None ==> alteration_slot(degree as int, accidental as int) is None,
{
    let d: u16 = if degree == 5 {
        0
    } else if degree == 9 {
        1
    } else if degree == 11 {
        2
    } else if degree == 13 {
        3
    } else {
        return None;
    };
    let a: u16 = if accidental == -2 {
        0
    } else if accidental == -1 {
        1
    } else if accidental == 1 {
        2
    } else if accidental == 2 {
        3
    } else {
        return None;
    };
    Some(d * 4 + a)
}

/// The alteration in slot `k`.
pub fn slot_alteration(k: u16) -> (a: Alteration)
    requires
        k < 16,
    ensures
        a.degree == slot_degree(k as int),
        a.accidental == slot_accidental(k as int),
        alteration_slot(a.degree as int, a.accidental as int) == Some(k as int),
{
    let d = k / 4;
    let degree: u8 = if d == 0 {
        5
    } else if d == 1 {
        9
    } else if d == 2 {
        11
    } else {
        13
    };
    let r = k % 4;
    let accidental: i8 = if r == 0 {
        -2
    } else if r == 1 {
        -1
    } else if r == 2 {
        1
    } else {
        2
    };
    Alteration { degree, accidental }
}

impl Alteration {
    /// A supported alteration; other degrees or accidentals are rejected.
    pub fn new(degree: u8, accidental: i8) -> (r: Result<Self, ChordClawError>)
        ensures
            r is Ok <==> supported_alteration(degree as int, accidental as int),
            r matches Ok(a) ==> a.degree == degree && a.accidental == accidental,
            r matches Err(e) ==> e.spec_message() == if !(degree == 5 || degree == 9 || degree == 11 || degree == 13) {
                "invalid alteration degree '"@ + decimal(degree as nat) + seq!['\'']
            } else {
                "unsupported alteration '"@ + crate::notes::accidental_chars(accidental as int) + decimal(degree as nat)
                    + seq!['\'']
            },
    {
        if !(degree == 5 || degree == 9 || degree == 11 || degree == 13) {
            let mut msg: Vec<char> = Vec::new();
            push_str(&mut msg, "invalid alteration degree '");
            push_decimal(&mut msg, degree as u32);
            msg.push('\'');
            return Err(ChordClawError::from_chars(&msg));
        }
        if !is_supported_alteration(degree, accidental) {
            let mut msg: Vec<char> = Vec::new();
            push_str(&mut msg, "unsupported alteration '");
            push_alteration_prefix(&mut msg, accidental);
            push_decimal(&mut msg, degree as u32);
            msg.push('\'');
            return Err(ChordClawError::from_chars(&msg));
        }
        Ok(Alteration { degree, accidental })
    }

    /// The altered degree.
    pub fn degree(self) -> (d: u8)
        ensures
            d == self.degree,
    {
        self.degree
    }

    /// The accidental: sharps positive, flats negative.
    pub fn accidental(self) -> (a: i8)
        ensures
            a == self.accidental,
    {
        self.accidental
    }
}

/// Appends the sharps or flats of an alteration.
pub fn push_alteration_prefix(out: &mut Vec<char>, accidental: i8)
    ensures
        final(out)@ == old(out)@ + crate::notes::accidental_chars(accidental as int),
{
    crate::notes::push_accidentals(out, accidental);
}

/// Everything a chord symbol says besides its root and bass.
///
/// Added degrees, alterations, and omissions are sets kept as bits, so they
/// have no order of their own: they are read back in increasing order.
#[derive(Copy, Clone, Debug, Eq, PartialEq, Structural, Hash)]
pub struct ChordSpec {
    pub quality: Quality,
    pub seventh: Seventh,
    pub extension: Option<Extension>,
    pub sixth: bool,
    pub alt: bool,
    /// Bit 0, 1, 2: add9, add11, add13.
    pub add_bits: u16,
    /// One bit per alteration slot; see [`slot_degree`] and [`slot_accidental`].
    pub alteration_bits: u16,
    /// Bit 0, 1, 2: no1, no3, no5.
    pub omission_bits: u16,
}

/// The add bit of a degree.
pub open spec fn add_bit(degree: int) -> int {
    if degree == 9 {
        0
    } else if degree == 11 {
        1
    } else if degree == 13 {
        2
    } else {
        -1
    }
}

/// The omission bit of a degree.
pub open spec fn omission_bit(degree: int) -> int {
    if degree == 1 {
        0
    } else if degree == 3 {
        1
    } else if degree == 5 {
        2
    } else {
        -1
    }
}

impl ChordSpec {
    /// Set bits are within their ranges.
    pub open spec fn wf(self) -> bool {
        self.add_bits < 8 && self.omission_bits < 8
    }

    /// Whether degree `d` is added.
    pub open spec fn has_add(self, d: int) -> bool {
        add_bit(d) >= 0 && bit16(self.add_bits, add_bit(d) as u16)
    }

    /// Whether degree `d` is omitted.
    pub open spec fn has_omission(self, d: int) -> bool {
        omission_bit(d) >= 0 && bit16(self.omission_bits, omission_bit(d) as u16)
    }

    /// Whether the alteration of `degree` by `accidental` is present.
    pub open spec fn has_alteration(self, degree: int, accidental: int) -> bool {
        alteration_slot(degree, accidental) matches Some(k) && bit16(self.alteration_bits, k as u16)
    }

    /// A plain major triad.
    pub fn major() -> (s: Self)
        ensures
            s.quality == Quality::Major,
            s.seventh == Seventh::Absent,
            s.extension is None,
            !s.sixth,
            !s.alt,
            s.add_bits == 0,
            s.alteration_bits == 0,
            s.omission_bits == 0,
    {
        ChordSpec {
            quality: Quality::Major,
            seventh: Seventh::Absent,
            extension: None,
            sixth: false,
            alt: false,
            add_bits: 0,
            alteration_bits: 0,
            omission_bits: 0,
        }
    }

    /// Triad quality.
    pub fn quality(&self) -> (q: Quality)
        ensures
            q == self.quality,
    {
        self.quality
    }

    /// Seventh.
    pub fn seventh(&self) -> (s: Seventh)
        ensures
            s == self.seventh,
    {
        self.seventh
    }

    /// Stacked extension.
    pub fn extension(&self) -> (e: Option<Extension>)
        ensures
            e == self.extension,
    {
        self.extension
    }

    /// Whether a sixth is present.
    pub fn sixth(&self) -> (b: bool)
        ensures
            b == self.sixth,
    {
        self.sixth
    }

    /// Whether this is the altered dominant `alt`.
    pub fn alt(&self) -> (b: bool)
        ensures
            b == self.alt,
    {
        self.alt
    }

    /// Whether degree `d` is added.
    pub fn contains_add(&self, d: u8) -> (b: bool)
        ensures
            b == self.has_add(d as int),
    {
        if d == 9 {
            test_bit16(self.add_bits, 0)
        } else if d == 11 {
            test_bit16(self.add_bits, 1)
        } else if d == 13 {
            test_bit16(self.add_bits, 2)
        } else {
            false
        }
    }

    /// Whether degree `d` is omitted.
    pub fn contains_omission(&self, d: u8) -> (b: bool)
        ensures
            b == self.has_omission(d as int),
    {
        if d == 1 {
            test_bit16(self.omission_bits, 0)
        } else if d == 3 {
            test_bit16(self.omission_bits, 1)
        } else if d == 5 {
            test_bit16(self.omission_bits, 2)
        } else {
            false
        }
    }

    /// Whether the alteration is present.
    pub fn contains_alteration(&self, a: Alteration) -> (b: bool)
        ensures
            b == self.has_alteration(a.degree as int, a.accidental as int),
    {
        match slot_of(a.degree, a.accidental) {
            Some(k) => test_bit16(self.alteration_bits, k),
            None => false,
        }
    }

    /// Added degrees in increasing order.
    pub fn adds(&self) -> (v: Vec<u8>)
        ensures
            forall|i: int| 0 <= i < v@.len() ==> self.has_add(#[trigger] v@[i] as int),
            forall|d: int| self.has_add(d) ==> v@.contains(d as u8),
    {
        let mut v: Vec<u8> = Vec::new();
        if self.contains_add(9) {
            v.push(9);
        }
        if self.contains_add(11) {
            v.push(11);
        }
        if self.contains_add(13) {
            v.push(13);
        }
        proof {
            assert forall|d: int| self.has_add(d) implies v@.contains(d as u8) by {
                if d == 9 {
                    assert(v@[0] == 9);
                } else if d == 11 {
                    assert(v@[v@.len() - 1 - if self.has_add(13) { 1int } else { 0 }] == 11);
                } else {
                    assert(v@[v@.len() - 1] == 13);
                }
            }
        }
        v
    }

    /// Alterations in increasing order of degree, then accidental.
    pub fn alterations(&self) -> (v: Vec<Alteration>)
        ensures
            forall|i: int| 0 <= i < v@.len() ==> self.has_alteration(
                #[trigger] v@[i].degree as int,
                v@[i].accidental as int,
            ),
            forall|k: int| 0 <= k < 16 && #[trigger] bit16(self.alteration_bits, k as u16)
                ==> v@.contains(slot_alteration_spec(k)),
    {
        let mut v: Vec<Alteration> = Vec::new();
        let mut k: u16 = 0;
        while k < 16
            invariant
                0 <= k <= 16,
                forall|i: int| 0 <= i < v@.len() ==> self.has_alteration(
                    #[trigger] v@[i].degree as int,
                    v@[i].accidental as int,
                ),
                forall|j: int| 0 <= j < k && #[trigger] bit16(self.alteration_bits, j as u16)
                    ==> v@.contains(slot_alteration_spec(j)),
            decreases 16 - k,
        {
            let ghost old_v = v@;
            if test_bit16(self.alteration_bits, k) {
                let a = slot_alteration(k);
                v.push(a);
                assert(v@[v@.len() - 1] == a);
                assert(a == slot_alteration_spec(k as int));
                assert(bit16(self.alteration_bits, (k as int) as u16));
            }
            proof {
                assert forall|j: int| 0 <= j < k + 1 && #[trigger] bit16(self.alteration_bits, j as u16)
                    implies v@.contains(slot_alteration_spec(j)) by {
                    if j < k {
                        assert(old_v.contains(slot_alteration_spec(j)));
                        let i = choose|i: int| 0 <= i < old_v.len() && old_v[i] == slot_alteration_spec(j);
                        assert(v@[i] == old_v[i]);
                    } else {
                        assert(v@[v@.len() - 1] == slot_alteration_spec(j));
                    }
                }
            }
            k += 1;
        }
        v
    }

    /// Omitted degrees in increasing order.
    pub fn omissions(&self) -> (v: Vec<u8>)
        ensures
            forall|i: int| 0 <= i < v@.len() ==> self.has_omission(#[trigger] v@[i] as int),
            forall|d: int| self.has_omission(d) ==> v@.contains(d as u8),
    {
        let mut v: Vec<u8> = Vec::new();
        if self.contains_omission(1) {
            v.push(1);
        }
        if self.contains_omission(3) {
            v.push(3);
        }
        if self.contains_omission(5) {
            v.push(5);
        }
        proof {
            assert forall|d: int| self.has_omission(d) implies v@.contains(d as u8) by {
                if d == 1 {
                    assert(v@[0] == 1);
                } else if d == 3 {
                    assert(v@[v@.len() - 1 - if self.has_omission(5) { 1int } else { 0 }] == 3);
                } else {
                    assert(v@[v@.len() - 1] == 5);
                }
            }
        }
        v
    }

    /// The chord-symbol suffix, such as `m7b5`, `maj9`, `7sus4`, or `(b9)`.
    pub fn suffix(&self) -> (s: String)
        ensures
            s@ == suffix_text(*self),
    {
        let mut out: Vec<char> = Vec::new();
        self.push_suffix(&mut out);
        chars_to_string(&out)
    }

    /// Appends the suffix text to `out`.
    pub fn push_suffix(&self, out: &mut Vec<char>)
        ensures
            final(out)@ == old(out)@ + suffix_text(*self),
    {
        let ghost start = out@;
        let mut own: Vec<char> = Vec::new();
        if self.quality == Quality::Power {
            own.push('5');
        } else if self.alt {
            own.push('a');
            own.push('l');
            own.push('t');
        } else if is_special_half_dim(self) {
            own.push('m');
            own.push('7');
            own.push('b');
            own.push('5');
        } else {
            self.push_body(&mut own);
        }
        let mut i: usize = 0;
        while i < own.len()
            invariant
                0 <= i <= own@.len(),
                out@ == start + own@.take(i as int),
            decreases own@.len() - i,
        {
            out.push(own[i]);
            i += 1;
            assert(own@.take(i as int) == own@.take(i - 1).push(own@[i - 1]));
        }
        assert(own@.take(own@.len() as int) == own@);
        assert(own@ == suffix_text(*self));
    }

    fn push_body(&self, out: &mut Vec<char>)
        requires
            old(out)@.len() == 0,
            self.quality != Quality::Power,
            !self.alt,
            !special_half_dim(*self),
        ensures
            final(out)@ == suffix_text(*self),
    {
        self.push_head(out);
        self.push_adds(out);
        let ghost head = out@;
        self.push_alterations(out);
        self.push_omissions(out);
        assert(out@ == head + alterations_text(*self, 0, head.len() == 0) + omissions_text(*self, 0));
    }

    /// Quality, sixth, seventh or extension, and a deferred suspension.
    #[verifier::rlimit(40)]
    fn push_head(&self, out: &mut Vec<char>)
        ensures
            final(out)@ == old(out)@ + quality_text(*self) + sixth_text(*self) + harmony_text(*self)
                + deferred_sus_text(*self),
    {
        let ghost start = out@;
        let numbered = self.sixth || self.seventh != Seventh::Absent || self.extension.is_some();
        match self.quality {
            Quality::Major => {},
            Quality::Minor => out.push('m'),
            Quality::Diminished => {
                out.push('d');
                out.push('i');
                out.push('m');
            },
            Quality::Augmented => {
                out.push('a');
                out.push('u');
                out.push('g');
            },
            Quality::Sus2 => {
                if !numbered {
                    push_sus(out, '2');
                }
            },
            Quality::Sus4 => {
                if !numbered {
                    push_sus(out, '4');
                }
            },
            Quality::Power => {},
        }
        assert(out@ == start + quality_text(*self));
        if self.sixth {
            out.push('6');
            if self.contains_add(9) {
                out.push('/');
                out.push('9');
            }
        }
        assert(out@ == start + quality_text(*self) + sixth_text(*self));
        let ghost mid = out@;
        match self.extension {
            Some(Extension::Ninth) => push_extension(out, self, 0),
            Some(Extension::Eleventh) => push_extension(out, self, 1),
            Some(Extension::Thirteenth) => push_extension(out, self, 2),
            None => {
                match self.seventh {
                    Seventh::Absent => {},
                    Seventh::Minor => out.push('7'),
                    Seventh::Major => {
                        if self.quality == Quality::Minor {
                            out.push('(');
                            out.push('m');
                            out.push('a');
                            out.push('j');
                            out.push('7');
                            out.push(')');
                        } else {
                            out.push('m');
                            out.push('a');
                            out.push('j');
                            out.push('7');
                        }
                    },
                    Seventh::Diminished => out.push('7'),
                }
            },
        }
        assert(out@ == mid + harmony_text(*self));
        let ghost mid2 = out@;
        if numbered {
            if self.quality == Quality::Sus2 {
                push_sus(out, '2');
            } else if self.quality == Quality::Sus4 {
                push_sus(out, '4');
            }
        }
        assert(out@ == mid2 + deferred_sus_text(*self));
    }

    /// The `add` tokens.
    fn push_adds(&self, out: &mut Vec<char>)
        ensures
            final(out)@ == old(out)@ + adds_text(*self, 0),
    {
        let ghost head = out@;
        let mut k: u16 = 0;
        while k < 3
            invariant
                0 <= k <= 3,
                out@ == head + adds_text(*self, 0).take(adds_text(*self, 0).len() - adds_text(
                    *self,
                    k as int,
                ).len()),
                adds_text(*self, 0) == adds_text(*self, 0).take(
                    adds_text(*self, 0).len() - adds_text(*self, k as int).len(),
                ) + adds_text(*self, k as int),
            decreases 3 - k,
        {
            if test_bit16(self.add_bits, k) && !(self.sixth && k == 0) {
                out.push('a');
                out.push('d');
                out.push('d');
                if k == 0 {
                    out.push('9');
                } else if k == 1 {
                    out.push('1');
                    out.push('1');
                } else {
                    out.push('1');
                    out.push('3');
                }
            }
            proof {
                lemma_split_step(adds_text(*self, 0), adds_text(*self, k as int), adds_text(
                    *self,
                    k + 1,
                ), add_piece(*self, k as int));
            }
            k += 1;
        }
        assert(adds_text(*self, 3) == Seq::<char>::empty());
        assert(adds_text(*self, 0).take(adds_text(*self, 0).len() as int) == adds_text(*self, 0));
    }

    /// The alterations; the first is parenthesized when nothing precedes it.
    fn push_alterations(&self, out: &mut Vec<char>)
        ensures
            final(out)@ == old(out)@ + alterations_text(*self, 0, old(out)@.len() == 0),
    {
        let ghost head2 = out@;
        let mut k: u16 = 0;
        while k < 16
            invariant
                0 <= k <= 16,
                out@ + alterations_text(*self, k as int, out@.len() == 0) == head2
                    + alterations_text(*self, 0, head2.len() == 0),
            decreases 16 - k,
        {
            if test_bit16(self.alteration_bits, k) {
                let a = slot_alteration(k);
                let wrap = out.len() == 0;
                if wrap {
                    out.push('(');
                }
                push_alteration_prefix(out, a.accidental);
                push_decimal(out, a.degree as u32);
                if wrap {
                    out.push(')');
                }
            }
            k += 1;
        }
    }

    /// The `no` tokens.
    fn push_omissions(&self, out: &mut Vec<char>)
        ensures
            final(out)@ == old(out)@ + omissions_text(*self, 0),
    {
        let ghost head3 = out@;
        let mut k: u16 = 0;
        while k < 3
            invariant
                0 <= k <= 3,
                out@ + omissions_text(*self, k as int) == head3 + omissions_text(*self, 0),
            decreases 3 - k,
        {
            if test_bit16(self.omission_bits, k) {
                out.push('n');
                out.push('o');
                if k == 0 {
                    out.push('1');
                } else if k == 1 {
                    out.push('3');
                } else {
                    out.push('5');
                }
            }
            k += 1;
        }
    }

    /// Field-wise equality.
    pub fn same(&self, other: &ChordSpec) -> (b: bool)
        ensures
            b == (*self == *other),
    {
        self.quality == other.quality && self.seventh == other.seventh && self.extension
            == other.extension && self.sixth == other.sixth && self.alt == other.alt
            && self.add_bits == other.add_bits && self.alteration_bits == other.alteration_bits
            && self.omission_bits == other.omission_bits
    }
}

proof fn lemma_split_step(all: Seq<char>, rest_k: Seq<char>, rest_next: Seq<char>, piece: Seq<char>)
    requires
        rest_k == piece + rest_next,
        all == all.take(all.len() - rest_k.len()) + rest_k,
    ensures
        all == all.take(all.len() - rest_next.len()) + rest_next,
        all.take(all.len() - rest_next.len()) == all.take(all.len() - rest_k.len()) + piece,
{
    assert(all.take(all.len() - rest_next.len()) =~= all.take(all.len() - rest_k.len()) + piece);
}

/// The alteration in slot `k`.
pub open spec fn slot_alteration_spec(k: int) -> Alteration {
    Alteration { degree: slot_degree(k) as u8, accidental: slot_accidental(k) as i8 }
}

fn push_sus(out: &mut Vec<char>, d: char)
    ensures
        final(out)@ == old(out)@ + seq!['s', 'u', 's', d],
{
    out.push('s');
    out.push('u');
    out.push('s');
    out.push(d);
}

fn push_extension(out: &mut Vec<char>, spec: &ChordSpec, k: u8)
    requires
        k < 3,
    ensures
        final(out)@ == old(out)@ + extension_text(*spec, k as int, old(out)@.len() == 0),
{
    let minor_major = spec.seventh == Seventh::Major && spec.quality == Quality::Minor;
    if minor_major {
        out.push('(');
        out.push('m');
        out.push('a');
        out.push('j');
    } else if spec.seventh == Seventh::Major {
        out.push('m');
        out.push('a');
        out.push('j');
    }
    if k == 0 {
        out.push('9');
    } else if k == 1 {
        out.push('1');
        out.push('1');
    } else {
        out.push('1');
        out.push('3');
    }
    if minor_major {
        out.push(')');
    }
}

/// The digits of extension `k`: 9, 11, 13.
pub open spec fn extension_digits(k: int) -> Seq<char> {
    if k == 0 {
        seq!['9']
    } else if k == 1 {
        seq!['1', '1']
    } else {
        seq!['1', '3']
    }
}

/// Text of an extension, with `maj` for a major seventh and parentheses for
/// a minor chord with a major seventh.
pub open spec fn extension_text(spec: ChordSpec, k: int, empty: bool) -> Seq<char> {
    if spec.seventh == Seventh::Major && spec.quality == Quality::Minor {
        seq!['(', 'm', 'a', 'j'] + extension_digits(k) + seq![')']
    } else if spec.seventh == Seventh::Major {
        seq!['m', 'a', 'j'] + extension_digits(k)
    } else {
        extension_digits(k)
    }
}

/// The half-diminished spelling `m7b5`: minor, minor seventh, flat five, and
/// nothing else.
pub open spec fn special_half_dim(spec: ChordSpec) -> bool {
    spec.quality == Quality::Minor && spec.seventh == Seventh::Minor && spec.extension is None
        && !spec.sixth && spec.add_bits == 0 && spec.omission_bits == 0 && spec.alteration_bits
        == (1u16 << 1u16)
}

/// Whether the spec is exactly the half-diminished seventh `m7b5`.
pub fn is_special_half_dim(spec: &ChordSpec) -> (b: bool)
    ensures
        b == special_half_dim(*spec),
{
    spec.quality == Quality::Minor && spec.seventh == Seventh::Minor && spec.extension.is_none()
        && !spec.sixth && spec.add_bits == 0 && spec.omission_bits == 0 && spec.alteration_bits
        == (1u16 << 1u16)
}

/// Whether a sixth, seventh, or extension is present.
pub open spec fn numbered_harmony(spec: ChordSpec) -> bool {
    spec.sixth || spec.seventh != Seventh::Absent || spec.extension is Some
}

/// Text of the quality, before any number.
pub open spec fn quality_text(spec: ChordSpec) -> Seq<char> {
    match spec.quality {
        Quality::Major => seq![],
        Quality::Minor => seq!['m'],
        Quality::Diminished => seq!['d', 'i', 'm'],
        Quality::Augmented => seq!['a', 'u', 'g'],
        Quality::Sus2 => if numbered_harmony(spec) {
            seq![]
        } else {
            seq!['s', 'u', 's', '2']
        },
        Quality::Sus4 => if numbered_harmony(spec) {
            seq![]
        } else {
            seq!['s', 'u', 's', '4']
        },
        Quality::Power => seq![],
    }
}

/// Text of the sixth: `6`, or `6/9` when a ninth is added.
pub open spec fn sixth_text(spec: ChordSpec) -> Seq<char> {
    if spec.sixth {
        if spec.has_add(9) {
            seq!['6', '/', '9']
        } else {
            seq!['6']
        }
    } else {
        seq![]
    }
}

/// Text of the extension or seventh.
pub open spec fn harmony_text(spec: ChordSpec) -> Seq<char> {
    match spec.extension {
        Some(Extension::Ninth) => extension_text(spec, 0, false),
        Some(Extension::Eleventh) => extension_text(spec, 1, false),
        Some(Extension::Thirteenth) => extension_text(spec, 2, false),
        None => match spec.seventh {
            Seventh::Absent => seq![],
            Seventh::Minor => seq!['7'],
            Seventh::Major => if spec.quality == Quality::Minor {
                seq!['(', 'm', 'a', 'j', '7', ')']
            } else {
                seq!['m', 'a', 'j', '7']
            },
            Seventh::Diminished => seq!['7'],
        },
    }
}

/// A suspension written after the numbers: `7sus4`, `9sus2`.
pub open spec fn deferred_sus_text(spec: ChordSpec) -> Seq<char> {
    if numbered_harmony(spec) {
        match spec.quality {
            Quality::Sus2 => seq!['s', 'u', 's', '2'],
            Quality::Sus4 => seq!['s', 'u', 's', '4'],
            _ => seq![],
        }
    } else {
        seq![]
    }
}

/// Text of add bit `k`, skipped for the ninth of a 6/9 chord.
pub open spec fn add_piece(spec: ChordSpec, k: int) -> Seq<char> {
    if bit16(spec.add_bits, k as u16) && !(spec.sixth && k == 0) {
        seq!['a', 'd', 'd'] + if k == 0 {
            seq!['9']
        } else if k == 1 {
            seq!['1', '1']
        } else {
            seq!['1', '3']
        }
    } else {
        seq![]
    }
}

/// Text of add bits `k..3`.
pub open spec fn adds_text(spec: ChordSpec, k: int) -> Seq<char>
    decreases 3 - k,
{
    if k >= 3 {
        seq![]
    } else {
        add_piece(spec, k) + adds_text(spec, k + 1)
    }
}

/// Text of alteration slots `k..16`; the first is parenthesized when nothing
/// precedes it.
pub open spec fn alterations_text(spec: ChordSpec, k: int, empty: bool) -> Seq<char>
    decreases 16 - k,
{
    if k >= 16 {
        seq![]
    } else if bit16(spec.alteration_bits, k as u16) {
        let text = crate::notes::accidental_chars(slot_accidental(k)) + crate::text::decimal(
            slot_degree(k) as nat,
        );
        (if empty {
            seq!['('] + text + seq![')']
        } else {
            text
        }) + alterations_text(spec, k + 1, false)
    } else {
        alterations_text(spec, k + 1, empty)
    }
}

/// Text of omission bits `k..3`.
pub open spec fn omissions_text(spec: ChordSpec, k: int) -> Seq<char>
    decreases 3 - k,
{
    if k >= 3 {
        seq![]
    } else {
        (if bit16(spec.omission_bits, k as u16) {
            seq!['n', 'o'] + if k == 0 {
                seq!['1']
            } else if k == 1 {
                seq!['3']
            } else {
                seq!['5']
            }
        } else {
            seq![]
        }) + omissions_text(spec, k + 1)
    }
}

/// The suffix of a chord symbol.
pub open spec fn suffix_text(spec: ChordSpec) -> Seq<char> {
    if spec.quality == Quality::Power {
        seq!['5']
    } else if spec.alt {
        seq!['a', 'l', 't']
    } else if special_half_dim(spec) {
        seq!['m', '7', 'b', '5']
    } else {
        let head = quality_text(spec) + sixth_text(spec) + harmony_text(spec) + deferred_sus_text(
            spec,
        ) + adds_text(spec, 0);
        head + alterations_text(spec, 0, head.len() == 0) + omissions_text(spec, 0)
    }
}

/// The text of the suffix after the quality.
pub open spec fn suffix_rest(spec: ChordSpec) -> Seq<char> {
    let head = quality_text(spec) + sixth_text(spec) + harmony_text(spec) + deferred_sus_text(spec) + adds_text(
        spec,
        0,
    );
    sixth_text(spec) + harmony_text(spec) + deferred_sus_text(spec) + adds_text(spec, 0) + alterations_text(
        spec,
        0,
        head.len() == 0,
    ) + omissions_text(spec, 0)
}

/// Added degrees are written `add`.
proof fn lemma_adds_start(spec: ChordSpec, k: int)
    ensures
        adds_text(spec, k).len() > 0 ==> adds_text(spec, k).len() >= 2 && adds_text(spec, k)[0] == 'a' && adds_text(
            spec,
            k,
        )[1] == 'd',
    decreases 3 - k,
{
    if k < 3 {
        lemma_adds_start(spec, k + 1);
    }
}

/// Alterations start with a parenthesis, a flat or a sharp.
proof fn lemma_alterations_start(spec: ChordSpec, k: int, empty: bool)
    ensures
        alterations_text(spec, k, empty).len() > 0 ==> {
            let c = alterations_text(spec, k, empty)[0];
            c == '(' || c == 'b' || c == '#'
        },
    decreases 16 - k,
{
    if k < 16 {
        lemma_alterations_start(spec, k + 1, false);
        lemma_alterations_start(spec, k + 1, empty);
        if bit16(spec.alteration_bits, k as u16) {
            let a = slot_accidental(k);
            assert(a != 0);
            let text = crate::notes::accidental_chars(a) + crate::text::decimal(slot_degree(k) as nat);
            assert(crate::notes::accidental_chars(a).len() > 0);
            assert(text[0] == crate::notes::accidental_chars(a)[0]);
        }
    }
}

/// Omissions are written `no`.
proof fn lemma_omissions_start(spec: ChordSpec, k: int)
    ensures
        omissions_text(spec, k).len() > 0 ==> omissions_text(spec, k)[0] == 'n',
    decreases 3 - k,
{
    if k < 3 {
        lemma_omissions_start(spec, k + 1);
    }
}

/// What can follow the quality: the first characters of the rest of a
/// suffix never spell a quality mark. It starts with a digit, `(`, a flat,
/// a sharp, `n`, `add`, or `maj`.
pub(crate) proof fn lemma_rest_start(spec: ChordSpec)
    ensures
        ({
            let r = suffix_rest(spec);
            r.len() > 0 ==> {
                &&& r[0] == '6' || r[0] == '(' || r[0] == 'm' || r[0] == '7' || r[0] == '9' || r[0] == '1' || r[0] == 'a'
                    || r[0] == 'b' || r[0] == '#' || r[0] == 'n'
                &&& r[0] == 'm' ==> r.len() >= 3 && r[1] == 'a' && r[2] == 'j'
                &&& r[0] == 'a' ==> r.len() >= 2 && r[1] == 'd'
            }
        }),
{
    let head = quality_text(spec) + sixth_text(spec) + harmony_text(spec) + deferred_sus_text(spec) + adds_text(
        spec,
        0,
    );
    lemma_adds_start(spec, 0);
    lemma_alterations_start(spec, 0, head.len() == 0);
    lemma_omissions_start(spec, 0);
    let a = sixth_text(spec);
    let b = harmony_text(spec);
    let c = deferred_sus_text(spec);
    let d = adds_text(spec, 0);
    let e = alterations_text(spec, 0, head.len() == 0);
    let f = omissions_text(spec, 0);
    let r = suffix_rest(spec);
    assert(r == a + b + c + d + e + f);
    if c.len() > 0 {
        assert(a.len() > 0 || b.len() > 0);
    }
    if a.len() > 0 {
        assert(r[0] == a[0]);
    } else if b.len() > 0 {
        assert(r[0] == b[0]);
        assert(b.len() >= 1 ==> r[1] == b[1] || b.len() == 1);
        if b[0] == 'm' {
            assert(r[1] == b[1] && r[2] == b[2]);
        }
    } else if d.len() > 0 {
        assert(r[0] == d[0] && r[1] == d[1]);
    } else if e.len() > 0 {
        assert(r[0] == e[0]);
    } else if f.len() > 0 {
        assert(r[0] == f[0]);
    }
}

/// A spec's printed suffix starts with the mark of its quality: `aug` for
/// augmented, `dim` for diminished, `m` (not `maj`) for minor, `sus2` or
/// `sus4` for an unnumbered suspension, `5` alone for a power chord; a
/// major chord's suffix starts with none of these marks.
#[verifier::rlimit(80)]
pub proof fn lemma_suffix_names_quality(spec: ChordSpec)
    requires
        !spec.alt,
    ensures
        ({
            let t = suffix_text(spec);
            &&& spec.quality == Quality::Augmented ==> t.len() >= 3 && t.subrange(0, 3) == "aug"@
            &&& spec.quality == Quality::Diminished ==> t.len() >= 3 && t.subrange(0, 3) == "dim"@
            &&& spec.quality == Quality::Minor ==> t.len() >= 1 && t[0] == 'm' && !(t.len() >= 3 && t.subrange(0, 3)
                == "maj"@)
            &&& spec.quality == Quality::Power ==> t == "5"@
            &&& spec.quality == Quality::Sus2 && !numbered_harmony(spec) ==> t.len() >= 4 && t.subrange(0, 4)
                == "sus2"@
            &&& spec.quality == Quality::Sus4 && !numbered_harmony(spec) ==> t.len() >= 4 && t.subrange(0, 4)
                == "sus4"@
            &&& spec.quality == Quality::Major ==> t.len() == 0 || (t[0] != 'd' && t[0] != 's' && t[0] != '5' && (t[0] == 'm'
                ==> t.len() >= 3 && t.subrange(0, 3) == "maj"@) && (t[0] == 'a' ==> t.len() >= 2 && t[1] == 'd'))
        }),
{
    reveal_strlit("aug");
    reveal_strlit("dim");
    reveal_strlit("maj");
    reveal_strlit("5");
    reveal_strlit("sus2");
    reveal_strlit("sus4");
    assert("aug"@ =~= seq!['a', 'u', 'g']);
    assert("dim"@ =~= seq!['d', 'i', 'm']);
    assert("maj"@ =~= seq!['m', 'a', 'j']);
    assert("5"@ =~= seq!['5']);
    assert("sus2"@ =~= seq!['s', 'u', 's', '2']);
    assert("sus4"@ =~= seq!['s', 'u', 's', '4']);
    let t = suffix_text(spec);
    if spec.quality != Quality::Power && !special_half_dim(spec) {
        lemma_rest_start(spec);
        let r = suffix_rest(spec);
        assert(t == quality_text(spec) + r);
        if spec.quality == Quality::Minor && t.len() >= 3 {
            assert(t[1] == r[0]);
            if r[0] == 'a' {
                assert(t[2] == r[1]);
            }
            if t.subrange(0, 3) == "maj"@ {
                assert(t.subrange(0, 3)[1] == t[1] && t.subrange(0, 3)[2] == t[2]);
            }
        }
        if spec.quality == Quality::Major && t.len() > 0 {
            assert(t[0] == r[0]);
            if r[0] == 'm' {
                assert(t.subrange(0, 3) =~= seq!['m', 'a', 'j']);
            }
            if r[0] == 'a' {
                assert(t[1] == r[1]);
            }
        }
        if spec.quality == Quality::Augmented {
            assert(t.subrange(0, 3) =~= seq!['a', 'u', 'g']);
        }
        if spec.quality == Quality::Diminished {
            assert(t.subrange(0, 3) =~= seq!['d', 'i', 'm']);
        }
        if spec.quality == Quality::Sus2 && !numbered_harmony(spec) {
            assert(t.subrange(0, 4) =~= seq!['s', 'u', 's', '2']);
        }
        if spec.quality == Quality::Sus4 && !numbered_harmony(spec) {
            assert(t.subrange(0, 4) =~= seq!['s', 'u', 's', '4']);
        }
    }
    if special_half_dim(spec) {
        assert(t =~= seq!['m', '7', 'b', '5']);
        if t.subrange(0, 3) == "maj"@ {
            assert(t.subrange(0, 3)[1] == t[1]);
        }
    }
    if spec.quality == Quality::Power {
        assert(t =~= seq!['5']);
    }
}

/// Specs of different qualities among major, minor, diminished, augmented
/// and power never print the same suffix.
pub proof fn lemma_quality_suffixes_differ(a: ChordSpec, b: ChordSpec)
    requires
        !a.alt,
        !b.alt,
        a.quality != b.quality,
        a.quality == Quality::Major || a.quality == Quality::Minor || a.quality == Quality::Diminished
            || a.quality == Quality::Augmented || a.quality == Quality::Power,
        b.quality == Quality::Major || b.quality == Quality::Minor || b.quality == Quality::Diminished
            || b.quality == Quality::Augmented || b.quality == Quality::Power,
    ensures
        suffix_text(a) != suffix_text(b),
{
    lemma_suffix_names_quality(a);
    lemma_suffix_names_quality(b);
    reveal_strlit("aug");
    reveal_strlit("dim");
    reveal_strlit("maj");
    reveal_strlit("5");
    assert("aug"@ =~= seq!['a', 'u', 'g']);
    assert("dim"@ =~= seq!['d', 'i', 'm']);
    assert("maj"@ =~= seq!['m', 'a', 'j']);
    assert("5"@ =~= seq!['5']);
    let ta = suffix_text(a);
    let tb = suffix_text(b);
    if ta == tb {
        if ta.len() > 0 {
            assert(ta[0] == tb[0]);
        }
        if ta.len() >= 3 {
            assert(ta.subrange(0, 3)[0] == ta[0] && ta.subrange(0, 3)[1] == ta[1] && ta.subrange(0, 3)[2] == ta[2]);
        }
        if ta.len() >= 2 {
            assert(ta[1] == tb[1]);
        }
        if a.quality == Quality::Power || b.quality == Quality::Power {
            assert(ta.len() == 1 && ta[0] == '5');
        }
        assert(false);
    }
}

/// A parsed chord symbol: root, spec, and optional slash bass.
#[derive(Copy, Clone, Debug, Eq, PartialEq, Structural, Hash)]
pub struct ChordSymbol {
    pub root: NoteName,
    pub spec: ChordSpec,
    pub bass: Option<NoteName>,
}

/// How a chord symbol's text holds its parts: it starts with the root; a
/// slash that is not the slash of `6/9` is followed by the bass and nothing
/// else; without a bass every later slash is the slash of `6/9`; the text
/// between the root and the bass is a descriptor that stands for the spec.
pub open spec fn symbol_text_parts(text: Seq<char>, symbol: ChordSymbol) -> bool {
    exists|k: int| #[trigger] symbol_parts_at(text, symbol, k)
}

/// The spec that descriptor text `d` stands for.
pub open spec fn descriptor_of(d: Seq<char>) -> Option<ChordSpec> {
    parsed_descriptor(d, 0, d.len() as int)
}

/// [`symbol_text_parts`] with the root's length `k`.
pub open spec fn symbol_parts_at(text: Seq<char>, symbol: ChordSymbol, k: int) -> bool {
    note_prefix(text) == Some((symbol.root, k)) && match symbol.bass {
        Some(b) => exists|j: int|
            k <= j < text.len() && #[trigger] text[j] == '/' && !six_nine_slash(text, k, j, text.len() as int)
                && note_prefix(text.subrange(j + 1, text.len() as int)) == Some((b, text.len() - j - 1))
                && descriptor_of(text.subrange(k, j)) == Some(symbol.spec)
                && forall|i: int|
                k <= i < text.len() && i != j && #[trigger] text[i] == '/' ==> six_nine_slash(
                    text,
                    k,
                    i,
                    text.len() as int,
                ),
        None => descriptor_of(text.subrange(k, text.len() as int)) == Some(symbol.spec) && forall|i: int|
            k <= i < text.len() && #[trigger] text[i] == '/' ==> six_nine_slash(text, k, i, text.len() as int),
    }
}

/// A chord symbol names a usable chord: a slash bass differs from the root
/// and keeps the spelling of a chord tone it sounds as, and the tones are
/// sound.
pub open spec fn symbol_valid(symbol: ChordSymbol) -> bool {
    let tones = slots_from(spec_tones(symbol.spec), 0).map_values(
        |k: int| formula_tone(symbol.root, k),
    );
    &&& (symbol.bass matches Some(b) ==> b != symbol.root && bass_keeps_tone_spelling(tones, b))
    &&& formula_sound(symbol.spec, tones)
}

/// The canonical name of a chord symbol.
pub open spec fn symbol_text(symbol: ChordSymbol) -> Seq<char> {
    note_text(symbol.root) + suffix_text(symbol.spec) + match symbol.bass {
        Some(b) => seq!['/'] + note_text(b),
        None => seq![],
    }
}

/// Without a root note no text holds a chord symbol.
proof fn lemma_no_root_no_symbol(text: Seq<char>)
    requires
        note_prefix(text) is None,
    ensures
        forall|sym: ChordSymbol| !(symbol_text_parts(text, sym) && #[trigger] symbol_valid(sym)),
{
    assert forall|sym: ChordSymbol| !(symbol_text_parts(text, sym) && #[trigger] symbol_valid(sym)) by {
        if symbol_text_parts(text, sym) {
            let ks = choose|ks: int| #[trigger] symbol_parts_at(text, sym, ks);
        }
    }
}

/// Bass slashes and the notes after them read the same in `s[start..end]`
/// and in the text `t` cut from it.
proof fn lemma_shift_bass_slashes(s: Seq<char>, t: Seq<char>, start: int, lo: int, end: int)
    requires
        0 <= start <= lo <= end <= s.len(),
        t == s.subrange(start, end),
    ensures
        forall|e: int| #[trigger] bass_slash(s, lo, e, end) == bass_slash(t, lo - start, e - start, t.len() as int),
        forall|e: int| lo <= e < end ==> #[trigger] note_fills(s, e + 1, end) == note_fills(t, e + 1 - start, t.len() as int),
        two_bass_slashes(s, lo, end) ==> two_bass_slashes(t, lo - start, t.len() as int),
        (exists|e: int| #[trigger] bass_slash(s, lo, e, end) && !note_fills(s, e + 1, end)) ==> exists|e: int|
            #[trigger] bass_slash(t, lo - start, e, t.len() as int) && !note_fills(t, e + 1, t.len() as int),
{
    assert forall|e: int| lo <= e < end implies #[trigger] note_fills(s, e + 1, end) == note_fills(
        t,
        e + 1 - start,
        t.len() as int,
    ) by {
        assert(s.subrange(e + 1, end) =~= t.subrange(e + 1 - start, t.len() as int));
    }
    if two_bass_slashes(s, lo, end) {
        let (i, j) = choose|i: int, j: int| i < j && #[trigger] bass_slash(s, lo, i, end) && #[trigger] bass_slash(s, lo, j, end);
        assert(bass_slash(t, lo - start, i - start, t.len() as int));
        assert(bass_slash(t, lo - start, j - start, t.len() as int));
    }
    if exists|e: int| #[trigger] bass_slash(s, lo, e, end) && !note_fills(s, e + 1, end) {
        let e = choose|e: int| #[trigger] bass_slash(s, lo, e, end) && !note_fills(s, e + 1, end);
        assert(bass_slash(t, lo - start, e - start, t.len() as int));
        assert(!note_fills(t, e - start + 1, t.len() as int));
    }
}

/// A text with two bass slashes, or whose bass slash is not followed by
/// exactly one note, holds no chord symbol.
proof fn lemma_split_error(text: Seq<char>, k: int, root: NoteName, sym: ChordSymbol, ks: int)
    requires
        note_prefix(text) == Some((root, k)),
        two_bass_slashes(text, k, text.len() as int) || exists|e: int|
            #[trigger] bass_slash(text, k, e, text.len() as int) && !note_fills(text, e + 1, text.len() as int),
    ensures
        !symbol_parts_at(text, sym, ks),
{
    let n = text.len() as int;
    if symbol_parts_at(text, sym, ks) {
        assert(ks == k);
        match sym.bass {
            Some(b) => {
                let j = choose|j: int|
                    k <= j < n && #[trigger] text[j] == '/' && !six_nine_slash(text, k, j, n)
                        && note_prefix(text.subrange(j + 1, n)) == Some((b, n - j - 1))
                        && descriptor_of(text.subrange(k, j)) == Some(sym.spec)
                        && forall|i: int| k <= i < n && i != j && #[trigger] text[i] == '/' ==> six_nine_slash(text, k, i, n);
                if two_bass_slashes(text, k, n) {
                    let (i1, i2) = choose|i1: int, i2: int| i1 < i2 && #[trigger] bass_slash(text, k, i1, n) && #[trigger] bass_slash(text, k, i2, n);
                    if i1 != j {
                        assert(text[i1] == '/');
                    } else {
                        assert(text[i2] == '/');
                    }
                } else {
                    let e = choose|e: int| #[trigger] bass_slash(text, k, e, n) && !note_fills(text, e + 1, n);
                    if e != j {
                        assert(text[e] == '/');
                    }
                }
            },
            None => {
                if two_bass_slashes(text, k, n) {
                    let (i1, i2) = choose|i1: int, i2: int| i1 < i2 && #[trigger] bass_slash(text, k, i1, n) && #[trigger] bass_slash(text, k, i2, n);
                    assert(text[i1] == '/');
                } else {
                    let e = choose|e: int| #[trigger] bass_slash(text, k, e, n) && !note_fills(text, e + 1, n);
                    assert(text[e] == '/');
                }
            },
        }
    }
}

/// A chord symbol held by the text has the root, bass and descriptor that
/// the split of the text finds.
proof fn lemma_parts_match_split(
    text: Seq<char>,
    root: NoteName,
    k: int,
    e: int,
    bass: Option<NoteName>,
    sym: ChordSymbol,
    ks: int,
)
    requires
        note_prefix(text) == Some((root, k)),
        0 <= k <= e <= text.len(),
        bass is None ==> e == text.len() && forall|i: int|
            k <= i < text.len() && #[trigger] text[i] == '/' ==> six_nine_slash(text, k, i, text.len() as int),
        bass matches Some(b) ==> bass_slash(text, k, e, text.len() as int) && note_prefix(
            text.subrange(e + 1, text.len() as int),
        ) == Some((b, text.len() - e - 1)) && forall|i: int|
            k <= i < text.len() && i != e && #[trigger] text[i] == '/' ==> six_nine_slash(
                text,
                k,
                i,
                text.len() as int,
            ),
        symbol_parts_at(text, sym, ks),
    ensures
        ks == k,
        sym.root == root,
        sym.bass == bass,
        descriptor_of(text.subrange(k, e)) == Some(sym.spec),
{
    let n = text.len() as int;
    match sym.bass {
        Some(b) => {
            let j = choose|j: int|
                k <= j < n && #[trigger] text[j] == '/' && !six_nine_slash(text, k, j, n)
                    && note_prefix(text.subrange(j + 1, n)) == Some((b, n - j - 1))
                    && descriptor_of(text.subrange(k, j)) == Some(sym.spec)
                    && forall|i: int| k <= i < n && i != j && #[trigger] text[i] == '/' ==> six_nine_slash(text, k, i, n);
            match bass {
                Some(b2) => {
                    if j != e {
                        assert(text[j] == '/');
                    }
                },
                None => {
                    assert(text[j] == '/');
                },
            }
        },
        None => {
            match bass {
                Some(b2) => {
                    assert(text[e] == '/');
                },
                None => {},
            }
        },
    }
}

/// A text holds at most one chord symbol.
pub proof fn lemma_symbol_parts_unique(text: Seq<char>, a: ChordSymbol, b: ChordSymbol)
    requires
        symbol_text_parts(text, a),
        symbol_text_parts(text, b),
    ensures
        a == b,
{
    let ka = choose|k: int| #[trigger] symbol_parts_at(text, a, k);
    let kb = choose|k: int| #[trigger] symbol_parts_at(text, b, k);
    let n = text.len() as int;
    assert(ka == kb);
    crate::parse::lemma_note_prefix_len(text);
    match b.bass {
        Some(bb) => {
            let j = choose|j: int|
                kb <= j < n && #[trigger] text[j] == '/' && !six_nine_slash(text, kb, j, n)
                    && note_prefix(text.subrange(j + 1, n)) == Some((bb, n - j - 1))
                    && descriptor_of(text.subrange(kb, j)) == Some(b.spec)
                    && forall|i: int| kb <= i < n && i != j && #[trigger] text[i] == '/' ==> six_nine_slash(text, kb, i, n);
            assert(bass_slash(text, kb, j, n));
            lemma_parts_match_split(text, b.root, kb, j, Some(bb), a, ka);
        },
        None => {
            lemma_parts_match_split(text, b.root, kb, n, None, a, ka);
        },
    }
}

impl ChordSymbol {
    /// Parses a chord symbol such as `Cmaj7`, `F#m7b5`, `C6/9/E`, or `Bb13`.
    pub fn parse(input: &str) -> (r: Result<Self, ChordClawError>)
        ensures
            r is Ok <==> exists|sym: ChordSymbol|
                symbol_text_parts(trimmed(normalized_glyphs(input@)), sym) && #[trigger] symbol_valid(sym),
            r matches Ok(s) ==> symbol_text_parts(trimmed(normalized_glyphs(input@)), s) && symbol_valid(s),
            r matches Ok(s) ==> s.spec.wf() && -2 <= s.root.accidental <= 2,
            r matches Ok(s) ==> (s.bass matches Some(b) ==> b != s.root && -2 <= b.accidental <= 2),
    {
        let raw = str_to_chars(input);
        let normalized = normalize_chart_glyphs(&raw);
        let (start, end) = trim_bounds(normalized.as_slice());
        let ghost text = trimmed(normalized_glyphs(input@));
        if start == end {
            proof {
                assert(note_prefix(text) is None);
                lemma_no_root_no_symbol(text);
            }
            let mut msg: Vec<char> = Vec::new();
            push_str(&mut msg, "empty chord symbol");
            return Err(ChordClawError::from_chars(&msg));
        }
        let s = normalized.as_slice();
        proof {
            assert forall|i: int| 0 <= i < text.len() implies #[trigger] text[i] == s@[start + i] by {}
            assert(text =~= s@.subrange(start as int, end as int));
        }
        let (root, rest) = match parse_note_prefix(s, start, end) {
            Ok(v) => v,
            Err(e) => {
                proof {
                    lemma_no_root_no_symbol(text);
                }
                return Err(e);
            },
        };
        let ghost k = rest - start;
        let (descriptor_end, bass) = match split_bass(s, rest, end) {
            Ok(v) => v,
            Err(e) => {
                proof {
                    lemma_shift_bass_slashes(s@, text, start as int, rest as int, end as int);
                    assert forall|sym: ChordSymbol| !(symbol_text_parts(text, sym) && #[trigger] symbol_valid(
                        sym,
                    )) by {
                        if symbol_text_parts(text, sym) {
                            let ks = choose|ks: int| #[trigger] symbol_parts_at(text, sym, ks);
                            lemma_split_error(text, k, root, sym, ks);
                        }
                    }
                }
                return Err(e);
            },
        };
        proof {
            lemma_shift_bass_slashes(s@, text, start as int, rest as int, end as int);
            match bass {
                Some(b) => {
                    let j = descriptor_end - start;
                    assert(text.subrange(j + 1, text.len() as int) == s@.subrange(
                        descriptor_end + 1,
                        end as int,
                    ));
                    assert(bass_slash(s@, rest as int, descriptor_end as int, end as int));
                    assert(bass_slash(text, k, j, text.len() as int));
                    assert forall|i: int| k <= i < text.len() && i != j && #[trigger] text[i] == '/'
                        implies six_nine_slash(text, k, i, text.len() as int) by {
                        assert(s@[start + i] == '/');
                        assert(six_nine_slash(s@, rest as int, start + i, end as int));
                    }
                },
                None => {
                    assert forall|i: int| k <= i < text.len() && #[trigger] text[i] == '/' implies six_nine_slash(
                        text,
                        k,
                        i,
                        text.len() as int,
                    ) by {
                        assert(s@[start + i] == '/');
                        assert(six_nine_slash(s@, rest as int, start + i, end as int));
                    }
                },
            }
        }
        let ghost e = descriptor_end - start;
        let mut descriptor: Vec<char> = Vec::new();
        push_range(&mut descriptor, s, rest, descriptor_end);
        proof {
            assert(descriptor@ =~= text.subrange(k, e));
        }
        let spec = match parse_descriptor(descriptor.as_slice(), 0, descriptor.len()) {
            Ok(spec) => spec,
            Err(err) => {
                proof {
                    assert forall|sym: ChordSymbol| !(symbol_text_parts(text, sym) && #[trigger] symbol_valid(
                        sym,
                    )) by {
                        if symbol_text_parts(text, sym) {
                            let ks = choose|ks: int| #[trigger] symbol_parts_at(text, sym, ks);
                            lemma_parts_match_split(text, root, k, e, bass, sym, ks);
                        }
                    }
                }
                return Err(err);
            },
        };
        let symbol = ChordSymbol { root, spec, bass };
        assert(symbol_parts_at(text, symbol, k));
        match symbol.validate() {
            Ok(()) => {},
            Err(err) => {
                proof {
                    assert forall|sym: ChordSymbol| !(symbol_text_parts(text, sym) && #[trigger] symbol_valid(
                        sym,
                    )) by {
                        if symbol_text_parts(text, sym) {
                            let ks = choose|ks: int| #[trigger] symbol_parts_at(text, sym, ks);
                            lemma_parts_match_split(text, root, k, e, bass, sym, ks);
                            assert(sym == symbol);
                        }
                    }
                }
                return Err(err);
            },
        }
        assert(symbol_valid(symbol));
        Ok(symbol)
    }

    /// The chord's tones, spelled from the root.
    pub fn formula(&self) -> (f: ChordFormula)
        requires
            -2 <= self.root.accidental <= 2,
        ensures
            f.wf(),
            f.built_from(self.root, self.spec),
    {
        ChordFormula::from_parts(self.root, &self.spec)
    }

    fn validate(&self) -> (r: Result<(), ChordClawError>)
        requires
            -2 <= self.root.accidental <= 2,
        ensures
            r is Ok <==> symbol_valid(*self),
    {
        let formula = self.formula();
        reject_redundant_root_bass(self)?;
        reject_enharmonic_chord_tone_bass(self, &formula)?;
        reject_redundant_formula(self, &formula)
    }

    /// The root.
    pub fn root(&self) -> (n: NoteName)
        ensures
            n == self.root,
    {
        self.root
    }

    /// The slash bass, if any.
    pub fn bass(&self) -> (n: Option<NoteName>)
        ensures
            n == self.bass,
    {
        self.bass
    }

    /// The spec.
    pub fn spec(&self) -> (s: &ChordSpec)
        ensures
            *s == self.spec,
    {
        &self.spec
    }

    /// The canonical name, such as `C7/Bb`.
    pub fn name(&self) -> (s: String)
        ensures
            s@ == symbol_text(*self),
    {
        let mut out: Vec<char> = Vec::new();
        self.push_name(&mut out);
        chars_to_string(&out)
    }

    /// Appends the canonical name to `out`.
    pub fn push_name(&self, out: &mut Vec<char>)
        ensures
            final(out)@ == old(out)@ + symbol_text(*self),
    {
        let ghost start = out@;
        self.root.push_text(out);
        self.spec.push_suffix(out);
        match self.bass {
            Some(b) => {
                out.push('/');
                b.push_text(out);
            },
            None => {},
        }
        assert(out@ =~= start + symbol_text(*self));
    }
}

} // verus!
