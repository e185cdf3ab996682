use vstd::prelude::*;

verus! {

/// Collects the characters of a string slice into a vector.
pub fn str_to_chars(s: &str) -> (out: Vec<char>)
    ensures
        out@ == s@,
{
    let mut out: Vec<char> = Vec::new();
    for c in it: s.chars()
        invariant
            it.seq() == s@,
            out@ == it.seq().take(it.index() as int),
    {
        out.push(c);
    }
    out
}

/// Builds an owned string from a character vector.
#[verifier::external_body]
pub fn chars_to_string(chars: &Vec<char>) -> (s: String)
    ensures
        s@ == chars@,
{
    String::from_iter(chars.iter())
}

/// Appends the characters of `s` to `out`.
pub fn push_str(out: &mut Vec<char>, s: &str)
    ensures
        final(out)@ == old(out)@ + s@,
{
    let ghost start = out@;
    for c in it: s.chars()
        invariant
            it.seq() == s@,
            out@ == start + it.seq().take(it.index() as int),
    {
        out.push(c);
    }
}

/// Appends every character of `s` to `out`.
pub fn push_chars(out: &mut Vec<char>, s: &[char])
    ensures
        final(out)@ == old(out)@ + s@,
{
    let ghost start = out@;
    let mut i: usize = 0;
    while i < s.len()
        invariant
            0 <= i <= s@.len(),
            out@ == start + s@.take(i as int),
        decreases s@.len() - i,
    {
        out.push(s[i]);
        i += 1;
        assert(s@.take(i as int) == s@.take(i - 1) .push(s@[i - 1]));
    }
    assert(s@.take(s@.len() as int) == s@);
}

/// The decimal digit character for `d`.
pub open spec fn digit_char(d: nat) -> char {
    if d == 0 { '0' } else if d == 1 { '1' } else if d == 2 { '2' } else if d == 3 { '3' }
    else if d == 4 { '4' } else if d == 5 { '5' } else if d == 6 { '6' } else if d == 7 { '7' }
    else if d == 8 { '8' } else { '9' }
}

/// The decimal representation of `n`, without leading zeros.
pub open spec fn decimal(n: nat) -> Seq<char>
    decreases n,
{
    if n < 10 {
        seq![digit_char(n)]
    } else {
        decimal(n / 10).push(digit_char(n % 10))
    }
}

fn digit(d: u32) -> (c: char)
    requires
        d < 10,
    ensures
        c == digit_char(d as nat),
{
    if d == 0 { '0' } else if d == 1 { '1' } else if d == 2 { '2' } else if d == 3 { '3' }
    else if d == 4 { '4' } else if d == 5 { '5' } else if d == 6 { '6' } else if d == 7 { '7' }
    else if d == 8 { '8' } else { '9' }
}

/// Appends the decimal representation of `n` to `out`.
pub fn push_decimal(out: &mut Vec<char>, n: u32)
    ensures
        final(out)@ == old(out)@ + decimal(n as nat),
    decreases n,
{
    if n < 10 {
        out.push(digit(n));
    } else {
        push_decimal(out, n / 10);
        out.push(digit(n % 10));
    }
}

/// Appends the decimal representation of a length or count to `out`.
pub fn push_usize(out: &mut Vec<char>, n: usize)
    ensures
        final(out)@ == old(out)@ + decimal(n as nat),
    decreases n,
{
    if n < 10 {
        out.push(digit((n % 10) as u32));
    } else {
        push_usize(out, n / 10);
        out.push(digit((n % 10) as u32));
    }
}

/// Whether `c` is an ASCII digit.
pub open spec fn is_digit(c: char) -> bool {
    '0' <= c <= '9'
}

/// The value of the digits `s`.
pub open spec fn digits_value(s: Seq<char>) -> int
    decreases s.len(),
{
    if s.len() == 0 {
        0
    } else {
        digits_value(s.drop_last()) * 10 + (s.last() as int - '0' as int)
    }
}

/// The digits of a decimal number text: the text after an optional `+`.
pub open spec fn decimal_digits(s: Seq<char>) -> Seq<char> {
    if s.len() > 0 && s[0] == '+' {
        s.drop_first()
    } else {
        s
    }
}

/// A decimal number text: an optional `+` and at least one digit.
pub open spec fn is_decimal_text(s: Seq<char>) -> bool {
    let d = decimal_digits(s);
    d.len() > 0 && forall|i: int| 0 <= i < d.len() ==> is_digit(#[trigger] d[i])
}

/// The value of a decimal number text, when it is one and is at most `max`.
pub open spec fn decimal_text_value(s: Seq<char>, max: int) -> Option<int> {
    if is_decimal_text(s) && digits_value(decimal_digits(s)) <= max {
        Some(digits_value(decimal_digits(s)))
    } else {
        None
    }
}

/// Number of leading ASCII digits of `s`.
pub open spec fn lead_digits(s: Seq<char>) -> nat
    decreases s.len(),
{
    if s.len() > 0 && is_digit(s[0]) {
        1 + lead_digits(s.drop_first())
    } else {
        0
    }
}

/// A run of `m` digits at the start of `t` that nothing extends is its
/// leading digit run.
pub proof fn lemma_lead_digits(t: Seq<char>, m: int)
    requires
        0 <= m <= t.len(),
        forall|k: int| 0 <= k < m ==> is_digit(#[trigger] t[k]),
        m == t.len() || !is_digit(t[m]),
    ensures
        lead_digits(t) == m,
    decreases m,
{
    if m > 0 {
        let u = t.drop_first();
        assert forall|k: int| 0 <= k < m - 1 implies is_digit(#[trigger] u[k]) by {
            assert(u[k] == t[k + 1]);
        }
        if m < t.len() {
            assert(u[m - 1] == t[m]);
        }
        lemma_lead_digits(u, m - 1);
    }
}

pub proof fn lemma_digits_value_nonnegative(s: Seq<char>)
    requires
        forall|i: int| 0 <= i < s.len() ==> is_digit(#[trigger] s[i]),
    ensures
        digits_value(s) >= 0,
    decreases s.len(),
{
    if s.len() > 0 {
        lemma_digits_value_nonnegative(s.drop_last());
    }
}

pub proof fn lemma_digits_value_grows(s: Seq<char>)
    requires
        s.len() > 0,
        forall|i: int| 0 <= i < s.len() ==> is_digit(#[trigger] s[i]),
    ensures
        digits_value(s) >= digits_value(s.drop_last()) * 10,
{
    assert(is_digit(s[s.len() - 1]));
}

/// A longer run of digits has at least the value of its prefix.
pub proof fn lemma_digits_prefix(s: Seq<char>, start: int, mid: int, j: int)
    requires
        0 <= start <= mid <= j <= s.len(),
        forall|k: int| start <= k < j ==> is_digit(#[trigger] s[k]),
    ensures
        digits_value(s.subrange(start, j)) >= digits_value(s.subrange(start, mid)),
    decreases j - mid,
{
    if j > mid {
        lemma_digits_prefix(s, start, mid, j - 1);
        let t = s.subrange(start, j);
        assert(t.drop_last() =~= s.subrange(start, j - 1));
        assert forall|i: int| 0 <= i < t.len() implies is_digit(#[trigger] t[i]) by {
            assert(t[i] == s[start + i]);
        }
        lemma_digits_value_grows(t);
        assert forall|i: int| 0 <= i < t.drop_last().len() implies is_digit(#[trigger] t.drop_last()[i]) by {
            assert(t.drop_last()[i] == s[start + i]);
        }
        lemma_digits_value_nonnegative(t.drop_last());
    }
}

/// The value of the decimal text `s[lo..hi]`, at most `max`; `None` for
/// anything else. This reads numbers as `u64::from_str` does.
pub fn parse_decimal_range(s: &[char], lo: usize, hi: usize, max: u64) -> (r: Option<u64>)
    requires
        lo <= hi <= s@.len(),
        max < 0x1_0000_0000_0000,
    ensures
        r matches Some(v) ==> decimal_text_value(s@.subrange(lo as int, hi as int), max as int)
            == Some(v as int),
        r is None ==> decimal_text_value(s@.subrange(lo as int, hi as int), max as int) is None,
{
    let ghost text = s@.subrange(lo as int, hi as int);
    let start: usize = if lo < hi && s[lo] == '+' {
        lo + 1
    } else {
        lo
    };
    let ghost digits = decimal_digits(text);
    assert(digits =~= s@.subrange(start as int, hi as int));
    if start >= hi {
        return None;
    }
    let mut acc: u64 = 0;
    let mut i: usize = start;
    while i < hi
        invariant
            lo <= start <= i <= hi <= s@.len(),
            start < hi,
            max < 0x1_0000_0000_0000,
            digits == s@.subrange(start as int, hi as int),
            digits == decimal_digits(text),
            text == s@.subrange(lo as int, hi as int),
            forall|k: int| start <= k < i ==> is_digit(#[trigger] s@[k]),
            acc == digits_value(s@.subrange(start as int, i as int)),
            acc <= max,
        decreases hi - i,
    {
        let c = s[i];
        let ghost prefix = s@.subrange(start as int, i as int);
        let ghost next = s@.subrange(start as int, i + 1);
        assert(next.drop_last() =~= prefix);
        if !('0' <= c && c <= '9') {
            proof {
                assert(digits[i - start] == c);
                assert(!is_digit(digits[i - start]));
            }
            return None;
        }
        let d = (c as u32 - '0' as u32) as u64;
        assert(acc * 10 <= max * 10) by (nonlinear_arith)
            requires
                acc <= max,
        ;
        let candidate = acc * 10 + d;
        if candidate > max {
            proof {
                assert(digits_value(next) == candidate);
                if forall|k: int| start <= k < hi ==> is_digit(#[trigger] s@[k]) {
                    lemma_digits_prefix(s@, start as int, i + 1, hi as int);
                    assert(digits_value(digits) > max);
                } else {
                    let k = choose|k: int| start <= k < hi && !is_digit(#[trigger] s@[k]);
                    assert(digits[k - start] == s@[k]);
                    assert(!is_digit(digits[k - start]));
                }
            }
            return None;
        }
        acc = candidate;
        i += 1;
    }
    proof {
        assert forall|k: int| 0 <= k < digits.len() implies is_digit(#[trigger] digits[k]) by {
            assert(digits[k] == s@[start + k]);
        }
    }
    Some(acc)
}

/// Unicode `White_Space` characters, as `char::is_whitespace` classifies them.
pub open spec fn is_space(c: char) -> bool {
    ||| c == ' '
    ||| ('\u{9}' <= c && c <= '\u{d}')
    ||| c == '\u{85}'
    ||| c == '\u{a0}'
    ||| c == '\u{1680}'
    ||| ('\u{2000}' <= c && c <= '\u{200a}')
    ||| c == '\u{2028}'
    ||| c == '\u{2029}'
    ||| c == '\u{202f}'
    ||| c == '\u{205f}'
    ||| c == '\u{3000}'
}

/// Executable form of [`is_space`].
pub fn is_whitespace(c: char) -> (r: bool)
    ensures
        r == is_space(c),
{
    c == ' ' || ('\u{9}' <= c && c <= '\u{d}') || c == '\u{85}' || c == '\u{a0}' || c
        == '\u{1680}' || ('\u{2000}' <= c && c <= '\u{200a}') || c == '\u{2028}' || c
        == '\u{2029}' || c == '\u{202f}' || c == '\u{205f}' || c == '\u{3000}'
}

/// The characters of `s` with leading and trailing whitespace removed.
pub open spec fn trim_start_len(s: Seq<char>) -> nat
    decreases s.len(),
{
    if s.len() > 0 && is_space(s[0]) {
        1 + trim_start_len(s.drop_first())
    } else {
        0
    }
}

/// Number of trailing whitespace characters of `s`.
pub open spec fn trim_end_len(s: Seq<char>) -> nat
    decreases s.len(),
{
    if s.len() > 0 && is_space(s.last()) {
        1 + trim_end_len(s.drop_last())
    } else {
        0
    }
}

/// `s` without its leading and trailing whitespace.
pub open spec fn trimmed(s: Seq<char>) -> Seq<char> {
    let start = trim_start_len(s);
    let rest = s.skip(start as int);
    rest.take(rest.len() - trim_end_len(rest))
}

proof fn lemma_trim_start_bound(s: Seq<char>)
    ensures
        trim_start_len(s) <= s.len(),
    decreases s.len(),
{
    if s.len() > 0 && is_space(s[0]) {
        lemma_trim_start_bound(s.drop_first());
    }
}

proof fn lemma_trim_end_bound(s: Seq<char>)
    ensures
        trim_end_len(s) <= s.len(),
    decreases s.len(),
{
    if s.len() > 0 && is_space(s.last()) {
        lemma_trim_end_bound(s.drop_last());
    }
}

proof fn lemma_trim_start_step(s: Seq<char>, i: int)
    requires
        0 <= i <= s.len(),
        forall|j: int| 0 <= j < i ==> is_space(#[trigger] s[j]),
    ensures
        i < s.len() && is_space(s[i]) || i == s.len() || trim_start_len(s) == i,
        (i == s.len() || !is_space(s[i])) ==> trim_start_len(s) == i,
    decreases i,
{
    if i > 0 {
        let t = s.drop_first();
        assert forall|j: int| 0 <= j < i - 1 implies is_space(#[trigger] t[j]) by {
            assert(t[j] == s[j + 1]);
        }
        lemma_trim_start_step(t, i - 1);
        if i == s.len() || !is_space(s[i]) {
            assert(i - 1 == t.len() || !is_space(t[i - 1]));
        }
    }
}

proof fn lemma_trim_end_step(s: Seq<char>, k: int)
    requires
        0 <= k <= s.len(),
        forall|j: int| s.len() - k <= j < s.len() ==> is_space(#[trigger] s[j]),
        k == s.len() || !is_space(s[s.len() - 1 - k]),
    ensures
        trim_end_len(s) == k,
    decreases k,
{
    if k > 0 {
        let t = s.drop_last();
        assert forall|j: int| t.len() - (k - 1) <= j < t.len() implies is_space(#[trigger] t[j]) by {
            assert(t[j] == s[j]);
        }
        if k - 1 < t.len() {
            assert(t[t.len() - 1 - (k - 1)] == s[s.len() - 1 - k]);
        }
        lemma_trim_end_step(t, k - 1);
    } else {
        if s.len() > 0 {
            assert(!is_space(s.last()));
        }
    }
}

/// Bounds `(start, end)` of `s` with surrounding whitespace removed.
pub fn trim_bounds(s: &[char]) -> (r: (usize, usize))
    ensures
        r.0 <= r.1 <= s@.len(),
        s@.subrange(r.0 as int, r.1 as int) == trimmed(s@),
{
    let r = trim_range(s, 0, s.len());
    assert(s@.subrange(0, s@.len() as int) == s@);
    r
}

/// Bounds of `s[lo..hi]` with surrounding whitespace removed.
pub fn trim_range(s: &[char], lo: usize, hi: usize) -> (r: (usize, usize))
    requires
        lo <= hi <= s@.len(),
    ensures
        lo <= r.0 <= r.1 <= hi,
        s@.subrange(r.0 as int, r.1 as int) == trimmed(s@.subrange(lo as int, hi as int)),
{
    let ghost t = s@.subrange(lo as int, hi as int);
    let mut start: usize = lo;
    while start < hi && is_whitespace(s[start])
        invariant
            lo <= start <= hi <= s@.len(),
            t == s@.subrange(lo as int, hi as int),
            forall|j: int| lo <= j < start ==> is_space(#[trigger] s@[j]),
        decreases hi - start,
    {
        start += 1;
    }
    proof {
        assert forall|j: int| 0 <= j < start - lo implies is_space(#[trigger] t[j]) by {
            assert(t[j] == s@[j + lo]);
        }
        if start < hi {
            assert(t[start - lo] == s@[start as int]);
        }
        lemma_trim_start_step(t, start - lo);
    }
    let mut end: usize = hi;
    while end > start && is_whitespace(s[end - 1])
        invariant
            lo <= start <= end <= hi <= s@.len(),
            forall|j: int| end <= j < hi ==> is_space(#[trigger] s@[j]),
        decreases end,
    {
        end -= 1;
    }
    proof {
        let rest = t.skip(start - lo);
        let k = hi - end;
        assert forall|j: int| rest.len() - k <= j < rest.len() implies is_space(#[trigger] rest[j]) by {
            assert(rest[j] == s@[j + start]);
        }
        if k < rest.len() {
            assert(rest[rest.len() - 1 - k] == s@[end - 1]);
        }
        lemma_trim_end_step(rest, k);
        assert(s@.subrange(start as int, end as int) == rest.take(rest.len() - k));
    }
    (start, end)
}

/// ASCII lowercase of `c`; other characters are unchanged.
pub open spec fn lower(c: char) -> char {
    if 'A' <= c && c <= 'Z' {
        (((c as u32) + 32) as u8) as char
    } else {
        c
    }
}

/// Executable form of [`lower`].
pub fn to_lower(c: char) -> (r: char)
    ensures
        r == lower(c),
{
    if 'A' <= c && c <= 'Z' {
        (((c as u32) + 32) as u8) as char
    } else {
        c
    }
}

/// ASCII uppercase of `c`; other characters are unchanged.
pub open spec fn upper(c: char) -> char {
    if 'a' <= c && c <= 'z' {
        (((c as u32) - 32) as u8) as char
    } else {
        c
    }
}

/// Executable form of [`upper`].
pub fn to_upper(c: char) -> (r: char)
    ensures
        r == upper(c),
{
    if 'a' <= c && c <= 'z' {
        (((c as u32) - 32) as u8) as char
    } else {
        c
    }
}

/// Whether `s[start..end]` equals `lit`.
pub fn range_equals(s: &[char], start: usize, end: usize, lit: &str) -> (r: bool)
    requires
        start <= end <= s@.len(),
    ensures
        r == (s@.subrange(start as int, end as int) == lit@),
{
    let l = str_to_chars(lit);
    if end - start != l.len() {
        return false;
    }
    let mut i: usize = 0;
    while i < l.len()
        invariant
            0 <= i <= l@.len(),
            l@ == lit@,
            end - start == l@.len(),
            start <= end <= s@.len(),
            forall|j: int| 0 <= j < i ==> s@[start + j] == l@[j],
        decreases l@.len() - i,
    {
        if s[start + i] != l[i] {
            assert(s@.subrange(start as int, end as int)[i as int] != l@[i as int]);
            return false;
        }
        i += 1;
    }
    assert(s@.subrange(start as int, end as int) =~= l@);
    true
}

/// Whether `s[start..end]` equals `lit` up to ASCII case.
pub fn range_equals_ignore_case(s: &[char], start: usize, end: usize, lit: &str) -> (r: bool)
    requires
        start <= end <= s@.len(),
    ensures
        r == (s@.subrange(start as int, end as int).map_values(|c: char| lower(c))
            == lit@.map_values(|c: char| lower(c))),
{
    let l = str_to_chars(lit);
    let ghost a = s@.subrange(start as int, end as int).map_values(|c: char| lower(c));
    let ghost b = lit@.map_values(|c: char| lower(c));
    if end - start != l.len() {
        assert(a.len() != b.len());
        return false;
    }
    let mut i: usize = 0;
    while i < l.len()
        invariant
            0 <= i <= l@.len(),
            l@ == lit@,
            end - start == l@.len(),
            start <= end <= s@.len(),
            a == s@.subrange(start as int, end as int).map_values(|c: char| lower(c)),
            b == lit@.map_values(|c: char| lower(c)),
            forall|j: int| 0 <= j < i ==> a[j] == b[j],
        decreases l@.len() - i,
    {
        if to_lower(s[start + i]) != to_lower(l[i]) {
            assert(a[i as int] != b[i as int]);
            return false;
        }
        i += 1;
    }
    assert(a =~= b);
    true
}

} // verus!
