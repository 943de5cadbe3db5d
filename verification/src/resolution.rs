//! The evaluator: resolves a byte expression to a byte sequence and a
//! predicate to a boolean verdict against a concrete transaction.
use vstd::prelude::*;

use crate::ast::{Bytes, Predicate, Transform};
use crate::bignum::{
    be_checked_sub, be_encode, be_fixed8, be_mul, be_value, lemma_canonical_be_unique, u64_be_bytes,
};
use crate::bignum;
use crate::bool_op;
use crate::byte_op;
use crate::mask::apply_mask;
use crate::relation::{check_relation, relation_holds};
use crate::source::{InputSlice, OutputSlice, Source};
use crate::tx::Transaction;

verus! {

/// The one fatal evaluation error: a subtraction whose minuend is smaller
/// than its subtrahend.
#[derive(Clone, Copy, PartialEq, Eq, Structural, Debug)]
pub enum EvalError {
    Underflow,
}

/// One byte of a bitwise combination.
pub open spec fn bit_combine(op: byte_op::Binary, x: u8, y: u8) -> u8 {
    match op {
        byte_op::Binary::Xor => x ^ y,
        byte_op::Binary::And => x & y,
        byte_op::Binary::Or => x | y,
        _ => x,
    }
}

/// Bitwise combination of two byte sequences: over the overlap of the two,
/// bytes are combined pairwise; the tail of the longer operand is kept
/// unchanged, so the result has the longer operand's length.
pub open spec fn combine_bytes(op: byte_op::Binary, a: Seq<u8>, b: Seq<u8>) -> Seq<u8> {
    let sh = if a.len() <= b.len() {
        a
    } else {
        b
    };
    let lg = if a.len() <= b.len() {
        b
    } else {
        a
    };
    Seq::new(
        lg.len(),
        |i: int|
            if i < sh.len() {
                bit_combine(op, lg[i], sh[i])
            } else {
                lg[i]
            },
    )
}

/// What a unary byte operator yields: `Reverse` reverses the byte order;
/// `Flip` combines each byte with zero and so yields its operand unchanged.
pub open spec fn spec_byte_unary(op: byte_op::Unary, s: Seq<u8>) -> Seq<u8> {
    match op {
        byte_op::Unary::Flip => s,
        byte_op::Unary::Reverse => s.reverse(),
    }
}

/// The bytes a source designates in a transaction. An index beyond the
/// input or output list yields the empty sequence.
pub open spec fn spec_resolve_source(src: Source, t: Transaction) -> Seq<u8> {
    match src {
        Source::Transaction => t.serialized@,
        Source::Hash => t.hash@,
        Source::Input(sl, i) => if i < t.inputs@.len() {
            match sl {
                InputSlice::All => t.inputs@[i as int].serialized@,
                InputSlice::Script => t.inputs@[i as int].script@,
                InputSlice::Sequence => be_fixed8(t.inputs@[i as int].sequence),
            }
        } else {
            Seq::empty()
        },
        Source::Output(sl, i) => if i < t.outputs@.len() {
            match sl {
                OutputSlice::All => t.outputs@[i as int].serialized@,
                OutputSlice::Script => t.outputs@[i as int].script@,
                OutputSlice::Value => be_fixed8(t.outputs@[i as int].value),
            }
        } else {
            Seq::empty()
        },
    }
}

/// What a transform yields of sourced bytes: `Raw` passes them through, a
/// mask keeps the selected bytes, and `Len` yields the eight-byte big-endian
/// encoding of the byte count.
pub open spec fn spec_transform(tr: Transform, s: Seq<u8>) -> Seq<u8> {
    match tr {
        Transform::Raw => s,
        Transform::Mask(m) => apply_mask(m@, s),
        Transform::Len => be_fixed8(s.len() as u64),
    }
}

/// The byte sequence a byte expression resolves to, or `None` on arithmetic
/// underflow. Arithmetic operators read both operands as big-endian unsigned
/// integers and yield the shortest big-endian encoding of the result.
pub open spec fn spec_resolve_bytes(b: Bytes, t: Transaction) -> Option<Seq<u8>>
    decreases b,
{
    match b {
        Bytes::Raw(v) => Some(v@),
        Bytes::Sourced(src, tr) => Some(spec_transform(tr, spec_resolve_source(src, t))),
        Bytes::Unary(op, inner) => match spec_resolve_bytes(*inner, t) {
            Some(s) => Some(spec_byte_unary(op, s)),
            None => None,
        },
        Bytes::Binary(l, op, r) => match (spec_resolve_bytes(*l, t), spec_resolve_bytes(*r, t)) {
            (Some(x), Some(y)) => match op {
                byte_op::Binary::Add => Some(be_encode(be_value(x) + be_value(y))),
                byte_op::Binary::Subtract => if be_value(x) >= be_value(y) {
                    Some(be_encode((be_value(x) - be_value(y)) as nat))
                } else {
                    None
                },
                byte_op::Binary::Multiply => Some(be_encode(be_value(x) * be_value(y))),
                _ => Some(combine_bytes(op, x, y)),
            },
            _ => None,
        },
    }
}

/// The boolean a predicate resolves to, or `None` when an underflow occurs
/// in an operand that is evaluated. `And` and `Or` short-circuit left to
/// right: when the left operand decides the outcome the right operand is
/// not evaluated, and an error in it is not raised.
pub open spec fn spec_resolve_predicate(p: Predicate, t: Transaction) -> Option<bool>
    decreases p,
{
    match p {
        Predicate::Constant(c) => Some(c),
        Predicate::Unary(op, inner) => match op {
            bool_op::Unary::Not => match spec_resolve_predicate(*inner, t) {
                Some(v) => Some(!v),
                None => None,
            },
        },
        Predicate::Binary(l, op, r) => match spec_resolve_predicate(*l, t) {
            Some(lv) => match op {
                bool_op::Binary::And => if !lv {
                    Some(false)
                } else {
                    spec_resolve_predicate(*r, t)
                },
                bool_op::Binary::Or => if lv {
                    Some(true)
                } else {
                    spec_resolve_predicate(*r, t)
                },
            },
            None => None,
        },
        Predicate::Constraint(a, rel, b) => match (
            spec_resolve_bytes(a, t),
            spec_resolve_bytes(b, t),
        ) {
            (Some(x), Some(y)) => Some(relation_holds(rel, x, y)),
            _ => None,
        },
    }
}

/// Copies a byte vector.
fn copy_bytes(src: &Vec<u8>) -> (r: Vec<u8>)
    ensures
        r@ == src@,
{
    let mut out: Vec<u8> = Vec::new();
    let mut i: usize = 0;
    while i < src.len()
        invariant
            i <= src@.len(),
            out@ == src@.take(i as int),
        decreases src@.len() - i,
    {
        out.push(src[i]);
        proof {
            assert(src@.take(i + 1) =~= src@.take(i as int).push(src@[i as int]));
        }
        i += 1;
    }
    proof {
        assert(src@.take(src@.len() as int) =~= src@);
    }
    out
}

/// Reverses the byte order of a vector.
fn reverse_bytes(src: Vec<u8>) -> (r: Vec<u8>)
    ensures
        r@ == src@.reverse(),
{
    let mut out: Vec<u8> = Vec::new();
    let mut i: usize = 0;
    while i < src.len()
        invariant
            i <= src@.len(),
            out@.len() == i,
            forall|k: int| 0 <= k < i ==> out@[k] == src@[src@.len() - k - 1],
        decreases src@.len() - i,
    {
        out.push(src[src.len() - 1 - i]);
        i += 1;
    }
    proof {
        assert(out@ =~= src@.reverse());
    }
    out
}

/// Combines two byte vectors bitwise over their overlap, keeping the tail
/// of the longer operand unchanged.
fn bitwise_combine(op: byte_op::Binary, a: Vec<u8>, b: Vec<u8>) -> (r: Vec<u8>)
    requires
        op is Xor || op is And || op is Or,
    ensures
        r@ == combine_bytes(op, a@, b@),
{
    let sh: &Vec<u8> = if a.len() <= b.len() {
        &a
    } else {
        &b
    };
    let lg: &Vec<u8> = if a.len() <= b.len() {
        &b
    } else {
        &a
    };
    let mut out: Vec<u8> = Vec::new();
    let mut i: usize = 0;
    while i < lg.len()
        invariant
            op is Xor || op is And || op is Or,
            i <= lg@.len(),
            sh@.len() <= lg@.len(),
            out@.len() == i,
            forall|k: int|
                0 <= k < i ==> out@[k] == (if k < sh@.len() {
                    bit_combine(op, lg@[k], sh@[k])
                } else {
                    lg@[k]
                }),
        decreases lg@.len() - i,
    {
        if i < sh.len() {
            let c = match op {
                byte_op::Binary::Xor => lg[i] ^ sh[i],
                byte_op::Binary::And => lg[i] & sh[i],
                _ => lg[i] | sh[i],
            };
            out.push(c);
        } else {
            out.push(lg[i]);
        }
        i += 1;
    }
    proof {
        assert(out@ =~= combine_bytes(op, a@, b@));
    }
    out
}

/// Resolves a source against a transaction. An out-of-range input or output
/// index yields an empty byte vector.
pub fn resolve_source(src: &Source, t: &Transaction) -> (r: Vec<u8>)
    ensures
        r@ == spec_resolve_source(*src, *t),
{
    match src {
        Source::Transaction => copy_bytes(&t.serialized),
        Source::Hash => copy_bytes(&t.hash),
        Source::Input(sl, i) => if *i < t.inputs.len() {
            let inp = &t.inputs[*i];
            match sl {
                InputSlice::All => copy_bytes(&inp.serialized),
                InputSlice::Script => copy_bytes(&inp.script),
                InputSlice::Sequence => u64_be_bytes(inp.sequence),
            }
        } else {
            Vec::new()
        },
        Source::Output(sl, i) => if *i < t.outputs.len() {
            let outp = &t.outputs[*i];
            match sl {
                OutputSlice::All => copy_bytes(&outp.serialized),
                OutputSlice::Script => copy_bytes(&outp.script),
                OutputSlice::Value => u64_be_bytes(outp.value),
            }
        } else {
            Vec::new()
        },
    }
}

/// Applies a transform to sourced bytes.
pub fn apply_transform(tr: &Transform, bytes: Vec<u8>) -> (r: Vec<u8>)
    ensures
        r@ == spec_transform(*tr, bytes@),
{
    match tr {
        Transform::Raw => bytes,
        Transform::Mask(m) => m.apply(bytes),
        Transform::Len => u64_be_bytes(bytes.len() as u64),
    }
}

/// Resolves a byte expression against a transaction to a byte sequence, or
/// reports the arithmetic underflow of a subtraction.
pub fn resolve_bytes(b: &Bytes, t: &Transaction) -> (r: Result<Vec<u8>, EvalError>)
    ensures
        match spec_resolve_bytes(*b, *t) {
            Some(s) => r matches Ok(v) && v@ == s,
            None => r matches Err(e) && e == EvalError::Underflow,
        },
    decreases *b,
{
    match b {
        Bytes::Raw(v) => Ok(copy_bytes(v)),
        Bytes::Sourced(src, tr) => Ok(apply_transform(tr, resolve_source(src, t))),
        Bytes::Unary(op, inner) => {
            let s = resolve_bytes(&**inner, t)?;
            match op {
                byte_op::Unary::Flip => Ok(flip_bytes(s)),
                byte_op::Unary::Reverse => Ok(reverse_bytes(s)),
            }
        },
        Bytes::Binary(l, op, r) => {
            let x = resolve_bytes(&**l, t)?;
            let y = resolve_bytes(&**r, t)?;
            match op {
                byte_op::Binary::Add => {
                    let s = bignum::be_add(&x, &y);
                    proof {
                        lemma_canonical_be_unique(s@);
                    }
                    Ok(s)
                },
                byte_op::Binary::Subtract => match be_checked_sub(&x, &y) {
                    Some(d) => {
                        proof {
                            lemma_canonical_be_unique(d@);
                        }
                        Ok(d)
                    },
                    None => Err(EvalError::Underflow),
                },
                byte_op::Binary::Multiply => {
                    let s = be_mul(&x, &y);
                    proof {
                        lemma_canonical_be_unique(s@);
                    }
                    Ok(s)
                },
                byte_op::Binary::Xor => Ok(bitwise_combine(byte_op::Binary::Xor, x, y)),
                byte_op::Binary::And => Ok(bitwise_combine(byte_op::Binary::And, x, y)),
                byte_op::Binary::Or => Ok(bitwise_combine(byte_op::Binary::Or, x, y)),
            }
        },
    }
}

/// Combines every byte with zero, the identity: see `byte_op::Unary::Flip`.
fn flip_bytes(src: Vec<u8>) -> (r: Vec<u8>)
    ensures
        r@ == src@,
{
    let mut out: Vec<u8> = Vec::new();
    let mut i: usize = 0;
    while i < src.len()
        invariant
            i <= src@.len(),
            out@.len() == i,
            forall|k: int| 0 <= k < i ==> out@[k] == src@[k],
        decreases src@.len() - i,
    {
        let x = src[i];
        out.push(x ^ 0);
        proof {
            assert(x ^ 0 == x) by (bit_vector);
        }
        i += 1;
    }
    proof {
        assert(out@ =~= src@);
    }
    out
}

/// Resolves a predicate against a transaction to a boolean verdict, or
/// reports an arithmetic underflow raised by an evaluated operand. `And`
/// and `Or` short-circuit left to right.
pub fn resolve_predicate(p: &Predicate, t: &Transaction) -> (r: Result<bool, EvalError>)
    ensures
        match spec_resolve_predicate(*p, *t) {
            Some(v) => r matches Ok(b) && b == v,
            None => r matches Err(e) && e == EvalError::Underflow,
        },
    decreases *p,
{
    match p {
        Predicate::Constant(c) => Ok(*c),
        Predicate::Unary(op, inner) => match op {
            bool_op::Unary::Not => {
                let v = resolve_predicate(&**inner, t)?;
                Ok(!v)
            },
        },
        Predicate::Binary(l, op, r) => {
            let lv = resolve_predicate(&**l, t)?;
            match op {
                bool_op::Binary::And => if !lv {
                    Ok(false)
                } else {
                    resolve_predicate(&**r, t)
                },
                bool_op::Binary::Or => if lv {
                    Ok(true)
                } else {
                    resolve_predicate(&**r, t)
                },
            }
        },
        Predicate::Constraint(a, rel, b) => {
            let x = resolve_bytes(a, t)?;
            let y = resolve_bytes(b, t)?;
            Ok(check_relation(rel, &x, &y))
        },
    }
}

} // verus!
