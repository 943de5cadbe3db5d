//! A positional bit filter over byte sequences: bit `i` decides whether byte
//! `i` of the input survives.
use vstd::prelude::*;

use crate::lex::{bits_end, is_bit, lemma_bits_end, scan_bits, ParseError, Rule};

verus! {

/// An ordered bit vector. When applied to a byte sequence, byte `i` is kept
/// exactly when the mask has a bit at position `i` and that bit is true;
/// bytes beyond the mask's length are dropped.
#[derive(Debug)]
pub struct Mask(Vec<bool>);

/// The sequence of bytes of `b` that a mask `m` keeps: byte `i` survives iff
/// `i < m.len()` and `m[i]` is true; relative order is preserved.
pub open spec fn apply_mask(m: Seq<bool>, b: Seq<u8>) -> Seq<u8>
    decreases b.len(),
{
    if b.len() == 0 {
        Seq::empty()
    } else {
        let pre = apply_mask(m, b.drop_last());
        if b.len() - 1 < m.len() && m[b.len() - 1] {
            pre.push(b.last())
        } else {
            pre
        }
    }
}

impl View for Mask {
    type V = Seq<bool>;

    closed spec fn view(&self) -> Seq<bool> {
        self.0@
    }
}

impl Mask {
    /// Wraps an ordered bit vector as a mask.
    pub fn new(bits: Vec<bool>) -> (r: Mask)
        ensures
            r@ == bits@,
    {
        Mask(bits)
    }

    /// Returns a fresh mask with every bit flipped; the receiver is unchanged.
    pub fn invert(&self) -> (r: Mask)
        ensures
            r@.len() == self@.len(),
            forall|i: int| 0 <= i < self@.len() ==> r@[i] == !self@[i],
    {
        let mut out: Vec<bool> = Vec::new();
        let mut i: usize = 0;
        while i < self.0.len()
            invariant
                i <= self.0.len(),
                out@.len() == i,
                forall|k: int| 0 <= k < i ==> out@[k] == !self.0@[k],
            decreases self.0.len() - i,
        {
            out.push(!self.0[i]);
            i += 1;
        }
        Mask(out)
    }

    /// Keeps exactly the bytes whose position holds a true bit of this mask.
    pub fn apply(&self, other: Vec<u8>) -> (r: Vec<u8>)
        ensures
            r@ == apply_mask(self@, other@),
    {
        let mut out: Vec<u8> = Vec::new();
        let mut i: usize = 0;
        while i < other.len()
            invariant
                i <= other@.len(),
                out@ == apply_mask(self@, other@.take(i as int)),
            decreases other@.len() - i,
        {
            if i < self.0.len() && self.0[i] {
                out.push(other[i]);
            }
            proof {
                assert(other@.take(i + 1).drop_last() =~= other@.take(i as int));
                assert(other@.take(i + 1).last() == other@[i as int]);
            }
            i += 1;
        }
        proof {
            assert(other@.take(other@.len() as int) =~= other@);
        }
        out
    }
}

/// The bit sequence a run of `0`/`1` characters denotes.
pub open spec fn mask_bits(s: Seq<u8>, i: int, j: int) -> Seq<bool>
    recommends
        0 <= i <= j <= s.len(),
{
    Seq::new((j - i) as nat, |k: int| s[i + k] == 49)
}

/// Parses one mask bit: the character `0` or `1`.
pub fn parse_bool(s: &[u8], i: usize) -> (r: Result<(usize, bool), ParseError>)
    requires
        i <= s@.len(),
    ensures
        match r {
            Ok((j, b)) => i < s@.len() && is_bit(s@[i as int]) && j == i + 1 && (b <==> s@[
                i as int
            ] == 49),
            Err(e) => !(i < s@.len() && is_bit(s@[i as int])) && e == (ParseError {
                at: i,
                rule: Rule::Mask,
            }),
        },
{
    if i < s.len() && s[i] == 49 {
        Ok((i + 1, true))
    } else if i < s.len() && s[i] == 48 {
        Ok((i + 1, false))
    } else {
        Err(ParseError { at: i, rule: Rule::Mask })
    }
}

/// Parses a mask literal: the maximal non-empty run of `0`/`1` characters
/// starting at `i`, each character one bit.
pub fn parse_mask(s: &[u8], i: usize) -> (r: Result<(usize, Mask), ParseError>)
    requires
        i <= s@.len(),
    ensures
        match r {
            Ok((j, m)) => {
                &&& j == bits_end(s@, i as int)
                &&& i < j <= s@.len()
                &&& m@ == mask_bits(s@, i as int, j as int)
            },
            Err(e) => bits_end(s@, i as int) == i && e == (ParseError {
                at: i,
                rule: Rule::Mask,
            }),
        },
{
    let end = scan_bits(s, i);
    if end == i {
        return Err(ParseError { at: i, rule: Rule::Mask });
    }
    let mut bits: Vec<bool> = Vec::new();
    let mut k = i;
    while k < end
        invariant
            i <= k <= end <= s@.len(),
            bits@.len() == k - i,
            forall|m: int| 0 <= m < k - i ==> (bits@[m] <==> s@[i + m] == 49),
        decreases end - k,
    {
        bits.push(s[k] == 49);
        k += 1;
    }
    proof {
        assert(bits@ =~= mask_bits(s@, i as int, end as int));
    }
    Ok((end, Mask(bits)))
}

/// A mask never lengthens its input.
pub proof fn lemma_apply_mask_len(m: Seq<bool>, b: Seq<u8>)
    ensures
        apply_mask(m, b).len() <= b.len(),
    decreases b.len(),
{
    if b.len() > 0 {
        lemma_apply_mask_len(m, b.drop_last());
    }
}

/// A mask application that loses no byte changes nothing.
pub proof fn lemma_apply_mask_length_kept_identity(m: Seq<bool>, b: Seq<u8>)
    requires
        apply_mask(m, b).len() == b.len(),
    ensures
        apply_mask(m, b) == b,
    decreases b.len(),
{
    if b.len() > 0 {
        lemma_apply_mask_len(m, b.drop_last());
        lemma_apply_mask_length_kept_identity(m, b.drop_last());
        assert(apply_mask(m, b) =~= b);
    } else {
        assert(apply_mask(m, b) =~= b);
    }
}

/// Applying a mask twice is the same as applying it once, provided the first
/// application keeps the input's length; when bytes are dropped the shifted
/// positions make a second application select differently.
pub proof fn lemma_mask_idempotent_when_length_kept(m: Seq<bool>, b: Seq<u8>)
    requires
        apply_mask(m, b).len() == b.len(),
    ensures
        apply_mask(m, apply_mask(m, b)) == apply_mask(m, b),
{
    lemma_apply_mask_length_kept_identity(m, b);
}

} // verus!
