//! Recursive-descent parser of the textual expression grammar: byte
//! expressions over sources, transforms, literals and byte operators, and
//! predicates over relations, boolean operators and constants. Whitespace is
//! insignificant between tokens; a malformed token aborts the whole parse
//! with a structured, position-aware error and no recovery.
//!
//! Unary operators bind tighter than binary ones, and binary operators of
//! one level fold left to right without further precedence. A raw byte
//! literal is written `0x` followed by a non-empty, even run of hexadecimal
//! digits.
use vstd::prelude::*;

use crate::ast::{Bytes, Predicate, Transform};
use crate::bool_op;
use crate::byte_op;
use crate::lex::{
    alpha_end, bits_end, hex_end, is_hex, lemma_hex_end, scan_alpha, scan_hex, skip_ws, tag_at,
    eat_tag, ws_end, ParseError, Rule,
};
use crate::byte_op::spec_byte_binary_token;
use crate::mask::{mask_bits, parse_mask};
use crate::relation::{parse_relation, spec_parse_relation};
use crate::source::{parse_source, spec_parse_source};

verus! {

/// The ghost shape of a transform: what `Transform` holds, with the mask as
/// its bit sequence.
pub ghost enum TransformView {
    Raw,
    Mask(Seq<bool>),
    Len,
}

impl View for Transform {
    type V = TransformView;

    open spec fn view(&self) -> TransformView {
        match self {
            Transform::Raw => TransformView::Raw,
            Transform::Mask(m) => TransformView::Mask(m@),
            Transform::Len => TransformView::Len,
        }
    }
}

/// The keyword `raw`.
pub open spec fn kw_raw() -> Seq<u8> {
    seq![114u8, 97u8, 119u8]
}

/// The keyword `len`.
pub open spec fn kw_len() -> Seq<u8> {
    seq![108u8, 101u8, 110u8]
}

/// The keyword `mask`.
pub open spec fn kw_mask() -> Seq<u8> {
    seq![109u8, 97u8, 115u8, 107u8]
}

/// The transform at `i`: a `:` followed immediately by the keyword `raw`,
/// `len`, or `mask` with a mask literal. The keyword is the whole letter run
/// after the colon.
pub open spec fn spec_parse_transform(s: Seq<u8>, i: int) -> Option<(int, TransformView)>
    recommends
        0 <= i <= s.len(),
{
    if !(i < s.len() && s[i] == 58) {
        None
    } else {
        let j = alpha_end(s, i + 1);
        if j == i + 1 {
            None
        } else if s.subrange(i + 1, j) == kw_raw() {
            Some((j, TransformView::Raw))
        } else if s.subrange(i + 1, j) == kw_len() {
            Some((j, TransformView::Len))
        } else if s.subrange(i + 1, j) == kw_mask() {
            let e = bits_end(s, j);
            if e == j {
                None
            } else {
                Some((e, TransformView::Mask(mask_bits(s, j, e))))
            }
        } else {
            None
        }
    }
}

/// The error a failed transform parse carries: the `keyword` rule at the
/// colon or at the malformed keyword after it, or the `mask` rule at an
/// empty mask literal.
pub open spec fn spec_transform_err(s: Seq<u8>, i: int) -> ParseError
    recommends
        0 <= i <= s.len(),
{
    if !(i < s.len() && s[i] == 58) {
        ParseError { at: i as usize, rule: Rule::Keyword }
    } else {
        let j = alpha_end(s, i + 1);
        if j != i + 1 && s.subrange(i + 1, j) == kw_mask() {
            ParseError { at: j as usize, rule: Rule::Mask }
        } else {
            ParseError { at: (i + 1) as usize, rule: Rule::Keyword }
        }
    }
}

/// Parses a transform annotation.
pub fn parse_transform(s: &[u8], i: usize) -> (r: Result<(usize, Transform), ParseError>)
    requires
        i <= s@.len(),
    ensures
        match r {
            Ok((j, tr)) => spec_parse_transform(s@, i as int) == Some((j as int, tr@)) && i < j
                <= s@.len(),
            Err(e) => spec_parse_transform(s@, i as int) is None && e == spec_transform_err(
                s@,
                i as int,
            ) && e.at <= s@.len(),
        },
{
    if !(i < s.len() && s[i] == 58) {
        return Err(ParseError { at: i, rule: Rule::Keyword });
    }
    let j = scan_alpha(s, i + 1);
    if j == i + 1 {
        return Err(ParseError { at: i + 1, rule: Rule::Keyword });
    }
    let t_raw: Vec<u8> = vec![114u8, 97u8, 119u8];
    let t_len: Vec<u8> = vec![108u8, 101u8, 110u8];
    let t_mask: Vec<u8> = vec![109u8, 97u8, 115u8, 107u8];
    proof {
        assert(t_raw@ =~= kw_raw());
        assert(t_len@ =~= kw_len());
        assert(t_mask@ =~= kw_mask());
        assert(kw_raw().len() == 3 && kw_len().len() == 3 && kw_mask().len() == 4);
    }
    if eat_tag(s, i + 1, &t_raw) && j == i + 4 {
        proof {
            assert(s@.subrange(i + 1, j as int) =~= kw_raw());
        }
        Ok((j, Transform::Raw))
    } else if eat_tag(s, i + 1, &t_len) && j == i + 4 {
        proof {
            assert(s@.subrange(i + 1, j as int) =~= kw_len());
            assert(s@.subrange(i + 1, j as int) != kw_raw());
        }
        Ok((j, Transform::Len))
    } else if eat_tag(s, i + 1, &t_mask) && j == i + 5 {
        proof {
            assert(s@.subrange(i + 1, j as int) =~= kw_mask());
            assert(s@.subrange(i + 1, j as int) != kw_raw());
            assert(s@.subrange(i + 1, j as int) != kw_len());
        }
        match parse_mask(s, j) {
            Ok((e, m)) => Ok((e, Transform::Mask(m))),
            Err(e) => Err(e),
        }
    } else {
        proof {
            lemma_kw_mismatch(s@, i as int, j as int);
        }
        Err(ParseError { at: i + 1, rule: Rule::Keyword })
    }
}

/// When the letter run after the colon does not match a keyword tag at its
/// exact length, it is not that keyword.
proof fn lemma_kw_mismatch(s: Seq<u8>, i: int, j: int)
    requires
        0 <= i,
        i + 1 <= j <= s.len(),
    ensures
        !(tag_at(s, i + 1, kw_raw()) && j == i + 4) ==> s.subrange(i + 1, j) != kw_raw(),
        !(tag_at(s, i + 1, kw_len()) && j == i + 4) ==> s.subrange(i + 1, j) != kw_len(),
        !(tag_at(s, i + 1, kw_mask()) && j == i + 5) ==> s.subrange(i + 1, j) != kw_mask(),
{
    assert(kw_raw().len() == 3 && kw_len().len() == 3 && kw_mask().len() == 4);
    if s.subrange(i + 1, j) == kw_raw() {
        assert(j - i - 1 == 3);
        assert(tag_at(s, i + 1, kw_raw()));
    }
    if s.subrange(i + 1, j) == kw_len() {
        assert(j - i - 1 == 3);
        assert(tag_at(s, i + 1, kw_len()));
    }
    if s.subrange(i + 1, j) == kw_mask() {
        assert(j - i - 1 == 4);
        assert(tag_at(s, i + 1, kw_mask()));
    }
}

/// The numeric value of a hexadecimal digit character, zero outside the
/// class.
pub open spec fn hex_val(c: u8) -> u8 {
    if 48 <= c <= 57 {
        (c - 48) as u8
    } else if 97 <= c <= 102 {
        (c - 87) as u8
    } else if 65 <= c <= 70 {
        (c - 55) as u8
    } else {
        0
    }
}

/// The bytes a run of hexadecimal digit pairs `s[i..j]` denotes.
pub open spec fn hex_bytes(s: Seq<u8>, i: int, j: int) -> Seq<u8>
    recommends
        0 <= i <= j <= s.len(),
{
    Seq::new((((j - i)) / 2) as nat, |k: int| (hex_val(s[i + 2 * k]) * 16 + hex_val(
        s[i + 2 * k + 1],
    )) as u8)
}

/// The raw byte literal at `i`: `0x` followed by the maximal run of
/// hexadecimal digits, which must be non-empty and of even length.
pub open spec fn spec_parse_raw(s: Seq<u8>, i: int) -> Option<(int, Seq<u8>)>
    recommends
        0 <= i <= s.len(),
{
    if !(i + 2 <= s.len() && s[i] == 48 && s[i + 1] == 120) {
        None
    } else {
        let j = hex_end(s, i + 2);
        if j == i + 2 || (j - i) % 2 != 0 {
            None
        } else {
            Some((j, hex_bytes(s, i + 2, j)))
        }
    }
}

/// The numeric value of one hexadecimal digit character.
fn hex_val_exec(c: u8) -> (r: u8)
    ensures
        r == hex_val(c),
        r <= 15,
{
    if 48 <= c && c <= 57 {
        c - 48
    } else if 97 <= c && c <= 102 {
        c - 87
    } else if 65 <= c && c <= 70 {
        c - 55
    } else {
        0
    }
}

/// The error a failed raw-literal parse carries: the `literal` rule at the
/// missing `0x` prefix, or at the end of an empty or odd run of digits.
pub open spec fn spec_raw_err(s: Seq<u8>, i: int) -> ParseError
    recommends
        0 <= i <= s.len(),
{
    if !(i + 2 <= s.len() && s[i] == 48 && s[i + 1] == 120) {
        ParseError { at: i as usize, rule: Rule::Literal }
    } else {
        ParseError { at: hex_end(s, i + 2) as usize, rule: Rule::Literal }
    }
}

/// Parses a raw byte literal.
pub fn parse_raw_literal(s: &[u8], i: usize) -> (r: Result<(usize, Vec<u8>), ParseError>)
    requires
        i <= s@.len(),
    ensures
        match r {
            Ok((j, v)) => spec_parse_raw(s@, i as int) matches Some((je, ve)) && j == je && v@
                == ve && i < j <= s@.len(),
            Err(e) => spec_parse_raw(s@, i as int) is None && e == spec_raw_err(s@, i as int)
                && e.at <= s@.len(),
        },
{
    let _slen = s.len();
    if !(s.len() - i >= 2 && s[i] == 48 && s[i + 1] == 120) {
        return Err(ParseError { at: i, rule: Rule::Literal });
    }
    let j = scan_hex(s, i + 2);
    if j == i + 2 || (j - i) % 2 != 0 {
        return Err(ParseError { at: j, rule: Rule::Literal });
    }
    let mut out: Vec<u8> = Vec::new();
    let mut p = i + 2;
    proof {
        lemma_hex_end(s@, i + 2);
    }
    while p < j
        invariant
            i + 2 <= p <= j <= s@.len(),
            (p - i) % 2 == 0,
            (j - i) % 2 == 0,
            out@.len() == (p - i - 2) / 2,
            forall|k: int| i + 2 <= k < j ==> is_hex(s@[k]),
            forall|m: int|
                0 <= m < out@.len() ==> out@[m] == (hex_val(s@[i + 2 + 2 * m]) * 16 + hex_val(
                    s@[i + 2 + 2 * m + 1],
                )) as u8,
        decreases j - p,
    {
        let hi = hex_val_exec(s[p]);
        let lo = hex_val_exec(s[p + 1]);
        out.push(hi * 16 + lo);
        p += 2;
    }
    proof {
        assert(out@ =~= hex_bytes(s@, i + 2, j as int));
    }
    Ok((j, out))
}

/// The keyword `rev`.
pub open spec fn kw_rev() -> Seq<u8> {
    seq![114u8, 101u8, 118u8]
}

/// The keyword `true`.
pub open spec fn kw_true() -> Seq<u8> {
    seq![116u8, 114u8, 117u8, 101u8]
}

/// The keyword `false`.
pub open spec fn kw_false() -> Seq<u8> {
    seq![102u8, 97u8, 108u8, 115u8, 101u8]
}

/// `b` is a parse of the byte-expression term written at `s[i..j]`: a raw
/// literal, a unary application, a parenthesized byte expression, or a
/// source with an optional transform.
pub open spec fn is_bterm_parse(s: Seq<u8>, i: int, j: int, b: Bytes) -> bool
    decreases j - i, 0int,
        when 0 <= i && i <= j && j <= s.len()
{
    ||| (b matches Bytes::Raw(v) && spec_parse_raw(s, i) == Some((j, v@)))
    ||| (b matches Bytes::Unary(op, inner) && op == byte_op::Unary::Flip && i < s.len() && s[i]
        == 126 && (exists|m: int|
        #![trigger pos_mark(m)]
        {
            &&& i < m <= j
            &&& m == ws_end(s, i + 1)
            &&& is_bterm_parse(s, m, j, *inner)
        }))
    ||| (b matches Bytes::Unary(op, inner) && op == byte_op::Unary::Reverse && tag_at(
        s,
        i,
        kw_rev(),
    ) && (exists|m: int|
        #![trigger pos_mark(m)]
        {
            &&& i < m <= j
            &&& m == ws_end(s, i + 3)
            &&& is_bterm_parse(s, m, j, *inner)
        }))
    ||| (i < s.len() && s[i] == 40 && (exists|m: int, jb: int|
        #![trigger pos_mark(m), pos_mark(jb)]
        {
            &&& i < m <= jb <= j
            &&& m == ws_end(s, i + 1)
            &&& is_bytes_parse(s, m, jb, b)
            &&& ws_end(s, jb) < s.len()
            &&& s[ws_end(s, jb)] == 41
            &&& j == ws_end(s, jb) + 1
        }))
    ||| (b matches Bytes::Sourced(src, tr) && spec_parse_source(s, i) == Some((j, src)) && tr@
        == TransformView::Raw && !(j < s.len() && s[j] == 58))
    ||| (b matches Bytes::Sourced(src, tr) && (exists|q: int|
        #![trigger pos_mark(q)]
        {
            &&& spec_parse_source(s, i) == Some((q, src))
            &&& q < s.len()
            &&& s[q] == 58
            &&& spec_parse_transform(s, q) == Some((j, tr@))
        }))
}

/// `b` is a parse of the byte expression written at `s[i..j]`: a term, or a
/// left-associated binary application whose right operand is a term.
pub open spec fn is_bytes_parse(s: Seq<u8>, i: int, j: int, b: Bytes) -> bool
    decreases j - i, 1int,
        when 0 <= i && i <= j && j <= s.len()
{
    ||| is_bterm_parse(s, i, j, b)
    ||| (b matches Bytes::Binary(l, op, r) && (exists|jl: int, k: int, m: int|
        #![trigger pos_mark(jl), pos_mark(k), pos_mark(m)]
        {
            &&& i < jl < j
            &&& is_bytes_parse(s, i, jl, *l)
            &&& k == ws_end(s, jl)
            &&& k < s.len()
            &&& spec_byte_binary_token(s[k]) == Some(op)
            &&& i < m <= j
            &&& m == ws_end(s, k + 1)
            &&& is_bterm_parse(s, m, j, *r)
        }))
}

/// `p` is a parse of the predicate term written at `s[i..j]`: a boolean
/// constant, a negation, a parenthesized predicate, or a relational
/// constraint between two byte expressions.
pub open spec fn is_pterm_parse(s: Seq<u8>, i: int, j: int, p: Predicate) -> bool
    decreases j - i, 0int,
        when 0 <= i && i <= j && j <= s.len()
{
    ||| (p matches Predicate::Constant(c) && c == true && tag_at(s, i, kw_true()) && j == i + 4)
    ||| (p matches Predicate::Constant(c) && c == false && tag_at(s, i, kw_false()) && j == i + 5)
    ||| (p matches Predicate::Unary(op, inner) && op == bool_op::Unary::Not && i < s.len() && s[i]
        == 33 && (exists|m: int|
        #![trigger pos_mark(m)]
        {
            &&& i < m <= j
            &&& m == ws_end(s, i + 1)
            &&& is_pterm_parse(s, m, j, *inner)
        }))
    ||| (i < s.len() && s[i] == 40 && (exists|m: int, jp: int|
        #![trigger pos_mark(m), pos_mark(jp)]
        {
            &&& i < m <= jp <= j
            &&& m == ws_end(s, i + 1)
            &&& is_predicate_parse(s, m, jp, p)
            &&& ws_end(s, jp) < s.len()
            &&& s[ws_end(s, jp)] == 41
            &&& j == ws_end(s, jp) + 1
        }))
    ||| (p matches Predicate::Constraint(a, rel, c) && (exists|ja: int, k2: int|
        #![trigger pos_mark(ja), pos_mark(k2)]
        {
            &&& i < ja <= j
            &&& is_bytes_parse(s, i, ja, a)
            &&& spec_parse_relation(s, ws_end(s, ja)) == Some((k2, rel))
            &&& k2 <= s.len()
            &&& is_bytes_parse(s, ws_end(s, k2), j, c)
        }))
}

/// `p` is a parse of the predicate written at `s[i..j]`: a term, or a
/// left-associated binary application whose right operand is a term.
pub open spec fn is_predicate_parse(s: Seq<u8>, i: int, j: int, p: Predicate) -> bool
    decreases j - i, 1int,
        when 0 <= i && i <= j && j <= s.len()
{
    ||| is_pterm_parse(s, i, j, p)
    ||| (p matches Predicate::Binary(l, op, r) && (exists|jl: int, k: int, m: int|
        #![trigger pos_mark(jl), pos_mark(k), pos_mark(m)]
        {
            &&& i < jl < j
            &&& is_predicate_parse(s, i, jl, *l)
            &&& k == ws_end(s, jl)
            &&& k < s.len()
            &&& ((s[k] == 38 && op == bool_op::Binary::And) || (s[k] == 124 && op
                == bool_op::Binary::Or))
            &&& i < m <= j
            &&& m == ws_end(s, k + 1)
            &&& is_pterm_parse(s, m, j, *r)
        }))
}

/// The next scan position: `m` where it lies properly between `i` and the
/// end of `s`, else `i + 1`. The parser's positions always advance and stay
/// in bounds, so the fallback never fires on its paths; it keeps the
/// recursions below well founded on their own.
pub open spec fn next_from(s: Seq<u8>, i: int, m: int) -> int {
    if i < m && m <= s.len() {
        m
    } else {
        i + 1
    }
}

/// Where the byte-expression term read at `i` ends, `None` where none is
/// read: the committed-choice semantics of the grammar, alternatives tried
/// in the parser's order, with no backtracking past a chosen alternative.
pub open spec fn spec_bterm_end(s: Seq<u8>, i: int) -> Option<int>
    decreases s.len() - i, 0int,
        when 0 <= i <= s.len()
{
    if i < s.len() && s[i] == 48 {
        match spec_parse_raw(s, i) {
            Some((j, v)) => Some(j),
            None => None,
        }
    } else if i < s.len() && s[i] == 126 {
        spec_bterm_end(s, next_from(s, i, ws_end(s, i + 1)))
    } else if i < s.len() && tag_at(s, i, kw_rev()) {
        spec_bterm_end(s, next_from(s, i, ws_end(s, i + 3)))
    } else if i < s.len() && s[i] == 40 {
        match spec_bytes_end(s, next_from(s, i, ws_end(s, i + 1))) {
            Some(jb) => {
                let k = ws_end(s, jb);
                if 0 <= k < s.len() && s[k] == 41 {
                    Some(k + 1)
                } else {
                    None
                }
            },
            None => None,
        }
    } else {
        match spec_parse_source(s, i) {
            Some((q, src)) => if q < s.len() && s[q] == 58 {
                match spec_parse_transform(s, q) {
                    Some((j, tv)) => Some(j),
                    None => None,
                }
            } else {
                Some(q)
            },
            None => None,
        }
    }
}

/// Where the byte expression whose term ended at `e` finally ends: each
/// further `binop term` pair is consumed while one follows, and the fold
/// stops at the first position where none does.
pub open spec fn spec_bytes_tail_end(s: Seq<u8>, e: int) -> int
    decreases s.len() - e, 2int,
        when 0 <= e <= s.len()
{
    if e < s.len() {
        let k = ws_end(s, e);
        if 0 <= k < s.len() && spec_byte_binary_token(s[k]) is Some {
            match spec_bterm_end(s, next_from(s, e, ws_end(s, k + 1))) {
                Some(j2) => spec_bytes_tail_end(s, next_from(s, e, j2)),
                None => e,
            }
        } else {
            e
        }
    } else {
        e
    }
}

/// Where the byte expression read at `i` ends, `None` where none is read.
pub open spec fn spec_bytes_end(s: Seq<u8>, i: int) -> Option<int>
    decreases s.len() - i, 1int,
        when 0 <= i <= s.len()
{
    if i < s.len() {
        match spec_bterm_end(s, i) {
            Some(e0) => Some(spec_bytes_tail_end(s, next_from(s, i, e0))),
            None => None,
        }
    } else {
        None
    }
}

/// Where the predicate term read at `i` ends, `None` where none is read:
/// a boolean constant, a negation, a parenthesized predicate — falling back
/// to a constraint when the parenthesized predicate or its closing
/// parenthesis is not there — or a constraint.
pub open spec fn spec_pterm_end(s: Seq<u8>, i: int) -> Option<int>
    decreases s.len() - i, 0int,
        when 0 <= i <= s.len()
{
    if tag_at(s, i, kw_true()) {
        Some(i + 4)
    } else if tag_at(s, i, kw_false()) {
        Some(i + 5)
    } else if i < s.len() && s[i] == 33 {
        spec_pterm_end(s, next_from(s, i, ws_end(s, i + 1)))
    } else {
        let par = if i < s.len() && s[i] == 40 {
            match spec_predicate_end(s, next_from(s, i, ws_end(s, i + 1))) {
                Some(jp) => {
                    let k = ws_end(s, jp);
                    if 0 <= k < s.len() && s[k] == 41 {
                        Some(k + 1)
                    } else {
                        None
                    }
                },
                None => None,
            }
        } else {
            None
        };
        match par {
            Some(j) => Some(j),
            None => match spec_bytes_end(s, i) {
                Some(ja) => match spec_parse_relation(s, ws_end(s, ja)) {
                    Some((k2, rel)) => match spec_bytes_end(s, ws_end(s, k2)) {
                        Some(j2) => Some(j2),
                        None => None,
                    },
                    None => None,
                },
                None => None,
            },
        }
    }
}

/// Where the predicate whose term ended at `e` finally ends, folding
/// further `binop term` pairs as `spec_bytes_tail_end` does.
pub open spec fn spec_predicate_tail_end(s: Seq<u8>, e: int) -> int
    decreases s.len() - e, 2int,
        when 0 <= e <= s.len()
{
    if e < s.len() {
        let k = ws_end(s, e);
        if 0 <= k < s.len() && (s[k] == 38 || s[k] == 124) {
            match spec_pterm_end(s, next_from(s, e, ws_end(s, k + 1))) {
                Some(j2) => spec_predicate_tail_end(s, next_from(s, e, j2)),
                None => e,
            }
        } else {
            e
        }
    } else {
        e
    }
}

/// Where the predicate read at `i` ends, `None` where none is read.
pub open spec fn spec_predicate_end(s: Seq<u8>, i: int) -> Option<int>
    decreases s.len() - i, 1int,
        when 0 <= i <= s.len()
{
    if i < s.len() {
        match spec_pterm_end(s, i) {
            Some(e0) => Some(spec_predicate_tail_end(s, next_from(s, i, e0))),
            None => None,
        }
    } else {
        None
    }
}

/// Whether the whole input, surrounding whitespace aside, is one predicate,
/// and where that predicate ends: the exact success condition of
/// `parse_predicate`.
pub open spec fn spec_predicate_complete(s: Seq<u8>) -> Option<int> {
    match spec_predicate_end(s, ws_end(s, 0)) {
        Some(j) => if ws_end(s, j) == s.len() {
            Some(j)
        } else {
            None
        },
        None => None,
    }
}

/// Whether the whole input, surrounding whitespace aside, is one byte
/// expression, and where it ends: the exact success condition of
/// `parse_bytes`.
pub open spec fn spec_bytes_complete(s: Seq<u8>) -> Option<int> {
    match spec_bytes_end(s, ws_end(s, 0)) {
        Some(j) => if ws_end(s, j) == s.len() {
            Some(j)
        } else {
            None
        },
        None => None,
    }
}

/// A trigger anchor naming a token boundary position.
pub open spec fn pos_mark(m: int) -> int {
    m
}

/// Introduction of the unary clauses of `is_bterm_parse`.
proof fn lemma_is_bterm_unary(s: Seq<u8>, i: int, m: int, j: int, node: Bytes)
    requires
        0 <= i < m <= j <= s.len(),
        node matches Bytes::Unary(op, inner) && is_bterm_parse(s, m, j, *inner) && ((op
            == byte_op::Unary::Flip && i < s.len() && s[i] == 126 && m == ws_end(s, i + 1)) || (op
            == byte_op::Unary::Reverse && tag_at(s, i, kw_rev()) && m == ws_end(s, i + 3))),
    ensures
        is_bterm_parse(s, i, j, node),
{
    assert(pos_mark(m) == m);
}

/// Introduction of the parenthesis clause of `is_bterm_parse`.
proof fn lemma_is_bterm_paren(s: Seq<u8>, i: int, m: int, jb: int, j: int, b: Bytes)
    requires
        0 <= i < m <= jb <= j <= s.len(),
        i < s.len() && s[i] == 40,
        m == ws_end(s, i + 1),
        is_bytes_parse(s, m, jb, b),
        ws_end(s, jb) < s.len() && s[ws_end(s, jb)] == 41,
        j == ws_end(s, jb) + 1,
    ensures
        is_bterm_parse(s, i, j, b),
{
    assert(pos_mark(m) == m);
    assert(pos_mark(jb) == jb);
}

/// Introduction of the transformed-source clause of `is_bterm_parse`.
proof fn lemma_is_bterm_sourced(s: Seq<u8>, i: int, q: int, j: int, node: Bytes)
    requires
        0 <= i <= j <= s.len(),
        node matches Bytes::Sourced(src, tr) && spec_parse_source(s, i) == Some((q, src)) && q
            < s.len() && s[q] == 58 && spec_parse_transform(s, q) == Some((j, tr@)),
    ensures
        is_bterm_parse(s, i, j, node),
{
    assert(pos_mark(q) == q);
}

/// Introduction of the binary clause of `is_bytes_parse`.
proof fn lemma_is_bytes_binary(s: Seq<u8>, i: int, jl: int, m: int, j: int, node: Bytes)
    requires
        0 <= i < jl < j <= s.len(),
        i < m <= j,
        ws_end(s, jl) < s.len(),
        m == ws_end(s, ws_end(s, jl) + 1),
        node matches Bytes::Binary(l, op, r) && is_bytes_parse(s, i, jl, *l)
            && spec_byte_binary_token(s[ws_end(s, jl)]) == Some(op) && is_bterm_parse(s, m, j, *r),
    ensures
        is_bytes_parse(s, i, j, node),
{
    let k = ws_end(s, jl);
    assert(ws_end(s, k + 1) == m);
    assert(pos_mark(jl) == jl);
    assert(pos_mark(k) == k);
    assert(pos_mark(m) == m);
}

/// Introduction of the negation clause of `is_pterm_parse`.
proof fn lemma_is_pterm_not(s: Seq<u8>, i: int, m: int, j: int, node: Predicate)
    requires
        0 <= i < m <= j <= s.len(),
        i < s.len() && s[i] == 33,
        m == ws_end(s, i + 1),
        node matches Predicate::Unary(op, inner) && op == bool_op::Unary::Not && is_pterm_parse(
            s,
            m,
            j,
            *inner,
        ),
    ensures
        is_pterm_parse(s, i, j, node),
{
    assert(pos_mark(m) == m);
}

/// Introduction of the parenthesis clause of `is_pterm_parse`.
proof fn lemma_is_pterm_paren(s: Seq<u8>, i: int, m: int, jp: int, j: int, p: Predicate)
    requires
        0 <= i < m <= jp <= j <= s.len(),
        i < s.len() && s[i] == 40,
        m == ws_end(s, i + 1),
        is_predicate_parse(s, m, jp, p),
        ws_end(s, jp) < s.len() && s[ws_end(s, jp)] == 41,
        j == ws_end(s, jp) + 1,
    ensures
        is_pterm_parse(s, i, j, p),
{
    assert(pos_mark(m) == m);
    assert(pos_mark(jp) == jp);
}

/// Introduction of the constraint clause of `is_pterm_parse`.
proof fn lemma_is_pterm_constraint(s: Seq<u8>, i: int, ja: int, k2: int, j: int, node: Predicate)
    requires
        0 <= i < ja <= j <= s.len(),
        k2 <= s.len(),
        node matches Predicate::Constraint(a, rel, c) && is_bytes_parse(s, i, ja, a)
            && spec_parse_relation(s, ws_end(s, ja)) == Some((k2, rel)) && is_bytes_parse(
            s,
            ws_end(s, k2),
            j,
            c,
        ),
    ensures
        is_pterm_parse(s, i, j, node),
{
    assert(pos_mark(ja) == ja);
    assert(pos_mark(k2) == k2);
}

/// Introduction of the binary clause of `is_predicate_parse`.
proof fn lemma_is_predicate_binary(s: Seq<u8>, i: int, jl: int, m: int, j: int, node: Predicate)
    requires
        0 <= i < jl < j <= s.len(),
        i < m <= j,
        ws_end(s, jl) < s.len(),
        m == ws_end(s, ws_end(s, jl) + 1),
        node matches Predicate::Binary(l, op, r) && is_predicate_parse(s, i, jl, *l) && ((s[ws_end(
            s,
            jl,
        )] == 38 && op == bool_op::Binary::And) || (s[ws_end(s, jl)] == 124 && op
            == bool_op::Binary::Or)) && is_pterm_parse(s, m, j, *r),
    ensures
        is_predicate_parse(s, i, j, node),
{
    let k = ws_end(s, jl);
    assert(ws_end(s, k + 1) == m);
    assert(pos_mark(jl) == jl);
    assert(pos_mark(k) == k);
    assert(pos_mark(m) == m);
}

/// Parses one byte-expression term: a raw literal, a unary `~` or `rev`
/// application, a parenthesized byte expression, or a source with an
/// optional transform (`raw` when none is written).
#[verifier::rlimit(60)]
#[verifier::spinoff_prover]
fn parse_bterm(s: &[u8], i: usize) -> (r: Result<(usize, Bytes), ParseError>)
    requires
        i <= s@.len(),
    ensures
        match r {
            Ok((j, b)) => i < j <= s@.len() && is_bterm_parse(s@, i as int, j as int, b)
                && spec_bterm_end(s@, i as int) == Some(j as int),
            Err(e) => e.at <= s@.len() && spec_bterm_end(s@, i as int) is None,
        },
    decreases s@.len() - i, 0int,
{
    let _slen = s.len();
    if i < s.len() && s[i] == 48 {
        // a raw literal `0x...`
        let (j, v) = parse_raw_literal(s, i)?;
        return Ok((j, Bytes::Raw(v)));
    }
    if i < s.len() && s[i] == 126 {
        // `~` applies to the following term
        let m = skip_ws(s, i + 1);
        proof {
            assert(next_from(s@, i as int, ws_end(s@, i + 1)) == m as int);
        }
        let (j, b) = parse_bterm(s, m)?;
        let node = Bytes::Unary(byte_op::Unary::Flip, Box::new(b));
        proof {
            lemma_is_bterm_unary(s@, i as int, m as int, j as int, node);
        }
        return Ok((j, node));
    }
    let t_rev: Vec<u8> = vec![114u8, 101u8, 118u8];
    proof {
        assert(t_rev@ =~= kw_rev());
    }
    if eat_tag(s, i, &t_rev) {
        proof {
            assert(kw_rev().len() == 3);
        }
        let m = skip_ws(s, i + 3);
        proof {
            assert(next_from(s@, i as int, ws_end(s@, i + 3)) == m as int);
        }
        let (j, b) = parse_bterm(s, m)?;
        let node = Bytes::Unary(byte_op::Unary::Reverse, Box::new(b));
        proof {
            lemma_is_bterm_unary(s@, i as int, m as int, j as int, node);
        }
        return Ok((j, node));
    }
    if i < s.len() && s[i] == 40 {
        // a parenthesized byte expression
        let m = skip_ws(s, i + 1);
        proof {
            assert(next_from(s@, i as int, ws_end(s@, i + 1)) == m as int);
        }
        let (j, b) = parse_bytes_at(s, m)?;
        let k = skip_ws(s, j);
        if k < s.len() && s[k] == 41 {
            proof {
                lemma_is_bterm_paren(s@, i as int, m as int, j as int, k + 1, b);
            }
            return Ok((k + 1, b));
        }
        return Err(ParseError { at: k, rule: Rule::Bytes });
    }
    // a source with an optional transform
    let (j, src) = parse_source(s, i)?;
    if j < s.len() && s[j] == 58 {
        let (j2, tr) = parse_transform(s, j)?;
        let node = Bytes::Sourced(src, tr);
        proof {
            lemma_is_bterm_sourced(s@, i as int, j as int, j2 as int, node);
        }
        return Ok((j2, node));
    }
    Ok((j, Bytes::Sourced(src, Transform::Raw)))
}

/// Folds further `binop term` pairs onto an already parsed byte expression,
/// left-associatively; stops at the first position where no such pair
/// follows.
#[verifier::rlimit(60)]
#[verifier::spinoff_prover]
fn parse_bytes_rest(s: &[u8], j: usize, acc: Bytes, Ghost(i0): Ghost<int>) -> (r: (usize, Bytes))
    requires
        j <= s@.len(),
        0 <= i0 < j,
        is_bytes_parse(s@, i0, j as int, acc),
    ensures
        j <= r.0 <= s@.len(),
        is_bytes_parse(s@, i0, r.0 as int, r.1),
        r.0 as int == spec_bytes_tail_end(s@, j as int),
    decreases s@.len() - j, 2int,
{
    let k = skip_ws(s, j);
    match byte_op::parse_binary(s, k) {
        Err(_) => (j, acc),
        Ok((k2, op)) => {
            let m = skip_ws(s, k2);
            proof {
                assert(next_from(s@, j as int, ws_end(s@, k + 1)) == m as int);
            }
            match parse_bterm(s, m) {
                Err(_) => (j, acc),
                Ok((j2, rhs)) => {
                    let node = Bytes::Binary(Box::new(acc), op, Box::new(rhs));
                    proof {
                        lemma_is_bytes_binary(s@, i0, j as int, m as int, j2 as int, node);
                        assert(next_from(s@, j as int, j2 as int) == j2 as int);
                    }
                    parse_bytes_rest(s, j2, node, Ghost(i0))
                },
            }
        },
    }
}

/// Parses a byte expression starting at `i`: a term followed by any number
/// of `binop term` pairs, folded left to right.
fn parse_bytes_at(s: &[u8], i: usize) -> (r: Result<(usize, Bytes), ParseError>)
    requires
        i <= s@.len(),
    ensures
        match r {
            Ok((j, b)) => i < j <= s@.len() && is_bytes_parse(s@, i as int, j as int, b)
                && spec_bytes_end(s@, i as int) == Some(j as int),
            Err(e) => e.at <= s@.len() && spec_bytes_end(s@, i as int) is None,
        },
    decreases s@.len() - i, 1int,
{
    let (j, first) = parse_bterm(s, i)?;
    proof {
        assert(next_from(s@, i as int, j as int) == j as int);
    }
    let (j2, b) = parse_bytes_rest(s, j, first, Ghost(i as int));
    Ok((j2, b))
}

/// Parses one predicate term: a boolean constant, a negation, a
/// parenthesized predicate, or a relational constraint between two byte
/// expressions.
#[verifier::rlimit(60)]
#[verifier::spinoff_prover]
fn parse_pterm(s: &[u8], i: usize) -> (r: Result<(usize, Predicate), ParseError>)
    requires
        i <= s@.len(),
    ensures
        match r {
            Ok((j, p)) => i < j <= s@.len() && is_pterm_parse(s@, i as int, j as int, p)
                && spec_pterm_end(s@, i as int) == Some(j as int),
            Err(e) => e.at <= s@.len() && spec_pterm_end(s@, i as int) is None,
        },
    decreases s@.len() - i, 0int,
{
    let _slen = s.len();
    let t_true: Vec<u8> = vec![116u8, 114u8, 117u8, 101u8];
    proof {
        assert(t_true@ =~= kw_true());
    }
    if eat_tag(s, i, &t_true) {
        proof {
            assert(kw_true().len() == 4);
        }
        return Ok((i + 4, Predicate::Constant(true)));
    }
    let t_false: Vec<u8> = vec![102u8, 97u8, 108u8, 115u8, 101u8];
    proof {
        assert(t_false@ =~= kw_false());
    }
    if eat_tag(s, i, &t_false) {
        proof {
            assert(kw_false().len() == 5);
        }
        return Ok((i + 5, Predicate::Constant(false)));
    }
    if i < s.len() && s[i] == 33 {
        // `!` applies to the following predicate term
        let m = skip_ws(s, i + 1);
        proof {
            assert(next_from(s@, i as int, ws_end(s@, i + 1)) == m as int);
        }
        let (j, p) = parse_pterm(s, m)?;
        let node = Predicate::Unary(bool_op::Unary::Not, Box::new(p));
        proof {
            lemma_is_pterm_not(s@, i as int, m as int, j as int, node);
        }
        return Ok((j, node));
    }
    if i < s.len() && s[i] == 40 {
        // first as a parenthesized predicate; when that fails, anew as a
        // parenthesized byte expression opening a constraint
        let m = skip_ws(s, i + 1);
        proof {
            assert(next_from(s@, i as int, ws_end(s@, i + 1)) == m as int);
        }
        match parse_predicate_at(s, m) {
            Ok((j, p)) => {
                let k = skip_ws(s, j);
                if k < s.len() && s[k] == 41 {
                    proof {
                        lemma_is_pterm_paren(s@, i as int, m as int, j as int, k + 1, p);
                    }
                    return Ok((k + 1, p));
                }
            },
            Err(_) => {},
        }
    }
    let (j1, left) = parse_bytes_at(s, i)?;
    let k1 = skip_ws(s, j1);
    let (k2, rel) = parse_relation(s, k1)?;
    let m2 = skip_ws(s, k2);
    let (j2, right) = parse_bytes_at(s, m2)?;
    let node = Predicate::Constraint(left, rel, right);
    proof {
        lemma_is_pterm_constraint(s@, i as int, j1 as int, k2 as int, j2 as int, node);
    }
    Ok((j2, node))
}

/// Folds further `binop term` pairs onto an already parsed predicate,
/// left-associatively; stops at the first position where no such pair
/// follows.
#[verifier::rlimit(60)]
#[verifier::spinoff_prover]
fn parse_predicate_rest(s: &[u8], j: usize, acc: Predicate, Ghost(i0): Ghost<int>) -> (r: (
    usize,
    Predicate,
))
    requires
        j <= s@.len(),
        0 <= i0 < j,
        is_predicate_parse(s@, i0, j as int, acc),
    ensures
        j <= r.0 <= s@.len(),
        is_predicate_parse(s@, i0, r.0 as int, r.1),
        r.0 as int == spec_predicate_tail_end(s@, j as int),
    decreases s@.len() - j, 2int,
{
    let k = skip_ws(s, j);
    match bool_op::parse_binary(s, k) {
        Err(_) => (j, acc),
        Ok((k2, op)) => {
            let m = skip_ws(s, k2);
            proof {
                assert(next_from(s@, j as int, ws_end(s@, k + 1)) == m as int);
            }
            match parse_pterm(s, m) {
                Err(_) => (j, acc),
                Ok((j2, rhs)) => {
                    let node = Predicate::Binary(Box::new(acc), op, Box::new(rhs));
                    proof {
                        lemma_is_predicate_binary(s@, i0, j as int, m as int, j2 as int, node);
                        assert(next_from(s@, j as int, j2 as int) == j2 as int);
                    }
                    parse_predicate_rest(s, j2, node, Ghost(i0))
                },
            }
        },
    }
}

/// Parses a predicate starting at `i`: a term followed by any number of
/// `binop term` pairs, folded left to right.
fn parse_predicate_at(s: &[u8], i: usize) -> (r: Result<(usize, Predicate), ParseError>)
    requires
        i <= s@.len(),
    ensures
        match r {
            Ok((j, p)) => i < j <= s@.len() && is_predicate_parse(s@, i as int, j as int, p)
                && spec_predicate_end(s@, i as int) == Some(j as int),
            Err(e) => e.at <= s@.len() && spec_predicate_end(s@, i as int) is None,
        },
    decreases s@.len() - i, 1int,
{
    let (j, first) = parse_pterm(s, i)?;
    proof {
        assert(next_from(s@, i as int, j as int) == j as int);
    }
    let (j2, p) = parse_predicate_rest(s, j, first, Ghost(i as int));
    Ok((j2, p))
}

/// Parses a complete predicate expression: the whole input must be consumed
/// apart from surrounding whitespace.
pub fn parse_predicate(input: &[u8]) -> (r: Result<Predicate, ParseError>)
    ensures
        match r {
            Ok(p) => spec_predicate_complete(input@) matches Some(j) && is_predicate_parse(
                input@,
                ws_end(input@, 0),
                j,
                p,
            ) && ws_end(input@, j) == input@.len(),
            Err(e) => spec_predicate_complete(input@) is None && e.at <= input@.len(),
        },
{
    let i = skip_ws(input, 0);
    let (j, p) = parse_predicate_at(input, i)?;
    let k = skip_ws(input, j);
    if k < input.len() {
        return Err(ParseError { at: k, rule: Rule::End });
    }
    Ok(p)
}

/// Parses a complete byte expression: the whole input must be consumed
/// apart from surrounding whitespace.
pub fn parse_bytes(input: &[u8]) -> (r: Result<Bytes, ParseError>)
    ensures
        match r {
            Ok(b) => spec_bytes_complete(input@) matches Some(j) && is_bytes_parse(
                input@,
                ws_end(input@, 0),
                j,
                b,
            ) && ws_end(input@, j) == input@.len(),
            Err(e) => spec_bytes_complete(input@) is None && e.at <= input@.len(),
        },
{
    let i = skip_ws(input, 0);
    let (j, b) = parse_bytes_at(input, i)?;
    let k = skip_ws(input, j);
    if k < input.len() {
        return Err(ParseError { at: k, rule: Rule::End });
    }
    Ok(b)
}

} // verus!
