//! Lexical ground layer of the parser: the structured parse error, character
//! classes, maximal-run scanners, and keyword matching over byte slices.
use vstd::prelude::*;

verus! {

/// The grammar rule whose attempt failed; carried by every parse error.
#[derive(Clone, Copy, PartialEq, Eq, Structural, Debug)]
pub enum Rule {
    Keyword,
    Mask,
    Relation,
    InSlice,
    OutSlice,
    Source,
    Index,
    Literal,
    Bytes,
    Predicate,
    End,
}

/// A structured parse failure: the byte offset of the unconsumed input tail
/// and the innermost grammar rule attempted there.
#[derive(Clone, Copy, PartialEq, Eq, Structural, Debug)]
pub struct ParseError {
    pub at: usize,
    pub rule: Rule,
}

/// Insignificant whitespace between tokens.
pub open spec fn is_ws(c: u8) -> bool {
    c == 32 || c == 9 || c == 10 || c == 13
}

/// A mask bit character: `0` or `1`.
pub open spec fn is_bit(c: u8) -> bool {
    c == 48 || c == 49
}

/// A decimal digit.
pub open spec fn is_digit(c: u8) -> bool {
    48 <= c <= 57
}

/// An ASCII letter.
pub open spec fn is_alpha(c: u8) -> bool {
    (97 <= c <= 122) || (65 <= c <= 90)
}

/// A hexadecimal digit, either case.
pub open spec fn is_hex(c: u8) -> bool {
    is_digit(c) || (97 <= c <= 102) || (65 <= c <= 70)
}

/// End of the maximal whitespace run starting at `i`.
pub open spec fn ws_end(s: Seq<u8>, i: int) -> int
    decreases s.len() - i
        when 0 <= i <= s.len()
{
    if i < s.len() && is_ws(s[i]) {
        ws_end(s, i + 1)
    } else {
        i
    }
}

/// End of the maximal run of mask bits starting at `i`.
pub open spec fn bits_end(s: Seq<u8>, i: int) -> int
    decreases s.len() - i
        when 0 <= i <= s.len()
{
    if i < s.len() && is_bit(s[i]) {
        bits_end(s, i + 1)
    } else {
        i
    }
}

/// End of the maximal run of decimal digits starting at `i`.
pub open spec fn digits_end(s: Seq<u8>, i: int) -> int
    decreases s.len() - i
        when 0 <= i <= s.len()
{
    if i < s.len() && is_digit(s[i]) {
        digits_end(s, i + 1)
    } else {
        i
    }
}

/// End of the maximal run of letters starting at `i`.
pub open spec fn alpha_end(s: Seq<u8>, i: int) -> int
    decreases s.len() - i
        when 0 <= i <= s.len()
{
    if i < s.len() && is_alpha(s[i]) {
        alpha_end(s, i + 1)
    } else {
        i
    }
}

/// End of the maximal run of hexadecimal digits starting at `i`.
pub open spec fn hex_end(s: Seq<u8>, i: int) -> int
    decreases s.len() - i
        when 0 <= i <= s.len()
{
    if i < s.len() && is_hex(s[i]) {
        hex_end(s, i + 1)
    } else {
        i
    }
}

/// The run ends stay within bounds, cover only their class, and stop at the
/// first byte outside it.
pub proof fn lemma_ws_end(s: Seq<u8>, i: int)
    requires
        0 <= i <= s.len(),
    ensures
        i <= ws_end(s, i) <= s.len(),
        forall|k: int| i <= k < ws_end(s, i) ==> is_ws(s[k]),
        ws_end(s, i) == s.len() || !is_ws(s[ws_end(s, i)]),
    decreases s.len() - i,
{
    if i < s.len() && is_ws(s[i]) {
        lemma_ws_end(s, i + 1);
    }
}

/// As `lemma_ws_end`, for mask bits.
pub proof fn lemma_bits_end(s: Seq<u8>, i: int)
    requires
        0 <= i <= s.len(),
    ensures
        i <= bits_end(s, i) <= s.len(),
        forall|k: int| i <= k < bits_end(s, i) ==> is_bit(s[k]),
        bits_end(s, i) == s.len() || !is_bit(s[bits_end(s, i)]),
    decreases s.len() - i,
{
    if i < s.len() && is_bit(s[i]) {
        lemma_bits_end(s, i + 1);
    }
}

/// As `lemma_ws_end`, for decimal digits.
pub proof fn lemma_digits_end(s: Seq<u8>, i: int)
    requires
        0 <= i <= s.len(),
    ensures
        i <= digits_end(s, i) <= s.len(),
        forall|k: int| i <= k < digits_end(s, i) ==> is_digit(s[k]),
        digits_end(s, i) == s.len() || !is_digit(s[digits_end(s, i)]),
    decreases s.len() - i,
{
    if i < s.len() && is_digit(s[i]) {
        lemma_digits_end(s, i + 1);
    }
}

/// As `lemma_ws_end`, for letters.
pub proof fn lemma_alpha_end(s: Seq<u8>, i: int)
    requires
        0 <= i <= s.len(),
    ensures
        i <= alpha_end(s, i) <= s.len(),
        forall|k: int| i <= k < alpha_end(s, i) ==> is_alpha(s[k]),
        alpha_end(s, i) == s.len() || !is_alpha(s[alpha_end(s, i)]),
    decreases s.len() - i,
{
    if i < s.len() && is_alpha(s[i]) {
        lemma_alpha_end(s, i + 1);
    }
}

/// As `lemma_ws_end`, for hexadecimal digits.
pub proof fn lemma_hex_end(s: Seq<u8>, i: int)
    requires
        0 <= i <= s.len(),
    ensures
        i <= hex_end(s, i) <= s.len(),
        forall|k: int| i <= k < hex_end(s, i) ==> is_hex(s[k]),
        hex_end(s, i) == s.len() || !is_hex(s[hex_end(s, i)]),
    decreases s.len() - i,
{
    if i < s.len() && is_hex(s[i]) {
        lemma_hex_end(s, i + 1);
    }
}

/// Advances past insignificant whitespace.
pub fn skip_ws(s: &[u8], i: usize) -> (j: usize)
    requires
        i <= s@.len(),
    ensures
        j == ws_end(s@, i as int),
        i <= j <= s@.len(),
{
    let mut j = i;
    while j < s.len() && (s[j] == 32 || s[j] == 9 || s[j] == 10 || s[j] == 13)
        invariant
            i <= j <= s@.len(),
            ws_end(s@, i as int) == ws_end(s@, j as int),
        decreases s@.len() - j,
    {
        j += 1;
    }
    proof {
        lemma_ws_end(s@, i as int);
    }
    j
}

/// Advances past the maximal run of mask bits.
pub fn scan_bits(s: &[u8], i: usize) -> (j: usize)
    requires
        i <= s@.len(),
    ensures
        j == bits_end(s@, i as int),
        i <= j <= s@.len(),
{
    let mut j = i;
    while j < s.len() && (s[j] == 48 || s[j] == 49)
        invariant
            i <= j <= s@.len(),
            bits_end(s@, i as int) == bits_end(s@, j as int),
        decreases s@.len() - j,
    {
        j += 1;
    }
    proof {
        lemma_bits_end(s@, i as int);
    }
    j
}

/// Advances past the maximal run of decimal digits.
pub fn scan_digits(s: &[u8], i: usize) -> (j: usize)
    requires
        i <= s@.len(),
    ensures
        j == digits_end(s@, i as int),
        i <= j <= s@.len(),
{
    let mut j = i;
    while j < s.len() && 48 <= s[j] && s[j] <= 57
        invariant
            i <= j <= s@.len(),
            digits_end(s@, i as int) == digits_end(s@, j as int),
        decreases s@.len() - j,
    {
        j += 1;
    }
    proof {
        lemma_digits_end(s@, i as int);
    }
    j
}

/// Advances past the maximal run of letters.
pub fn scan_alpha(s: &[u8], i: usize) -> (j: usize)
    requires
        i <= s@.len(),
    ensures
        j == alpha_end(s@, i as int),
        i <= j <= s@.len(),
{
    let mut j = i;
    while j < s.len() && (97 <= s[j] && s[j] <= 122 || 65 <= s[j] && s[j] <= 90)
        invariant
            i <= j <= s@.len(),
            alpha_end(s@, i as int) == alpha_end(s@, j as int),
        decreases s@.len() - j,
    {
        j += 1;
    }
    proof {
        lemma_alpha_end(s@, i as int);
    }
    j
}

/// Advances past the maximal run of hexadecimal digits.
pub fn scan_hex(s: &[u8], i: usize) -> (j: usize)
    requires
        i <= s@.len(),
    ensures
        j == hex_end(s@, i as int),
        i <= j <= s@.len(),
{
    let mut j = i;
    while j < s.len() && (48 <= s[j] && s[j] <= 57 || 97 <= s[j] && s[j] <= 102 || 65 <= s[j]
        && s[j] <= 70)
        invariant
            i <= j <= s@.len(),
            hex_end(s@, i as int) == hex_end(s@, j as int),
        decreases s@.len() - j,
    {
        j += 1;
    }
    proof {
        lemma_hex_end(s@, i as int);
    }
    j
}

/// The value of the decimal digit run `s[i..j]`, most significant first.
pub open spec fn dec_val(s: Seq<u8>, i: int, j: int) -> nat
    decreases j - i
        when 0 <= i <= j <= s.len()
{
    if j <= i {
        0
    } else {
        (dec_val(s, i, j - 1) * 10 + (s[j - 1] - 48)) as nat
    }
}

/// Reading more digits never decreases the value of the run.
proof fn lemma_dec_val_mono(s: Seq<u8>, i: int, j1: int, j2: int)
    requires
        0 <= i <= j1 <= j2 <= s.len(),
        forall|k: int| i <= k < j2 ==> is_digit(s[k]),
    ensures
        dec_val(s, i, j1) <= dec_val(s, i, j2),
    decreases j2 - j1,
{
    if j1 < j2 {
        lemma_dec_val_mono(s, i, j1, j2 - 1);
        assert(dec_val(s, i, j2 - 1) * 10 >= dec_val(s, i, j2 - 1)) by (nonlinear_arith);
    }
}

/// Parses an unsigned decimal index. Fails when no digit stands at `i` or
/// when the denoted value does not fit the machine's index type.
pub fn parse_index(s: &[u8], i: usize) -> (r: Result<(usize, usize), ParseError>)
    requires
        i <= s@.len(),
    ensures
        match r {
            Ok((j, n)) => {
                &&& j == digits_end(s@, i as int)
                &&& i < j <= s@.len()
                &&& n as nat == dec_val(s@, i as int, j as int)
            },
            Err(e) => (digits_end(s@, i as int) == i || dec_val(
                s@,
                i as int,
                digits_end(s@, i as int),
            ) > usize::MAX) && e == (ParseError { at: i, rule: Rule::Index }),
        },
{
    let end = scan_digits(s, i);
    if end == i {
        return Err(ParseError { at: i, rule: Rule::Index });
    }
    proof {
        lemma_digits_end(s@, i as int);
    }
    let mut n: usize = 0;
    let mut k = i;
    while k < end
        invariant
            i <= k <= end <= s@.len(),
            end == digits_end(s@, i as int),
            forall|m: int| i <= m < end ==> is_digit(s@[m]),
            n as nat == dec_val(s@, i as int, k as int),
        decreases end - k,
    {
        let d = (s[k] - 48) as usize;
        let n10 = match n.checked_mul(10) {
            Some(v) => v,
            None => {
                proof {
                    assert(dec_val(s@, i as int, k + 1) > usize::MAX);
                    lemma_dec_val_mono(s@, i as int, k + 1, end as int);
                }
                return Err(ParseError { at: i, rule: Rule::Index });
            },
        };
        let n2 = match n10.checked_add(d) {
            Some(v) => v,
            None => {
                proof {
                    assert(dec_val(s@, i as int, k + 1) > usize::MAX);
                    lemma_dec_val_mono(s@, i as int, k + 1, end as int);
                }
                return Err(ParseError { at: i, rule: Rule::Index });
            },
        };
        n = n2;
        k += 1;
    }
    Ok((end, n))
}

/// Whether the token `t` occurs in `s` at offset `i`.
pub open spec fn tag_at(s: Seq<u8>, i: int, t: Seq<u8>) -> bool {
    0 <= i && i + t.len() <= s.len() && s.subrange(i, i + t.len()) == t
}

/// Tests whether the token `t` occurs at offset `i`.
pub fn eat_tag(s: &[u8], i: usize, t: &Vec<u8>) -> (r: bool)
    requires
        i <= s@.len(),
    ensures
        r == tag_at(s@, i as int, t@),
{
    if s.len() - i < t.len() {
        return false;
    }
    let mut k: usize = 0;
    while k < t.len()
        invariant
            k <= t@.len(),
            i + t@.len() <= s@.len(),
            i + t@.len() <= usize::MAX,
            forall|m: int| 0 <= m < k ==> s@[i + m] == t@[m],
        decreases t@.len() - k,
    {
        if s[i + k] != t[k] {
            proof {
                assert(s@.subrange(i as int, i + t@.len())[k as int] == s@[i + k]);
            }
            return false;
        }
        k += 1;
    }
    proof {
        assert(s@.subrange(i as int, i + t@.len()) =~= t@);
    }
    true
}

} // verus!
