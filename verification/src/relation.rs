//! Comparators applied to two resolved byte sequences, ordered
//! lexicographically: element-wise from index zero, a strict prefix being
//! lesser, with no zero-padding of the shorter operand.
use vstd::prelude::*;

use crate::lex::{ParseError, Rule};

verus! {

/// A comparator between two resolved byte sequences.
#[derive(Clone, Copy, PartialEq, Eq, Structural, Debug)]
pub enum Relation {
    LessThan,
    LessThanEq,
    GreaterThan,
    GreaterThanEq,
    Equal,
    NotEqual,
}

/// The outcome of a three-way comparison.
#[derive(Clone, Copy, PartialEq, Eq, Structural, Debug)]
pub enum Cmp {
    Less,
    Same,
    Greater,
}

/// Three-way lexicographic comparison of byte sequences: the first differing
/// byte decides; otherwise the shorter sequence (a strict prefix) is lesser.
pub open spec fn lex_cmp(a: Seq<u8>, b: Seq<u8>) -> Cmp
    decreases a.len(),
{
    if a.len() == 0 && b.len() == 0 {
        Cmp::Same
    } else if a.len() == 0 {
        Cmp::Less
    } else if b.len() == 0 {
        Cmp::Greater
    } else if a[0] < b[0] {
        Cmp::Less
    } else if a[0] > b[0] {
        Cmp::Greater
    } else {
        lex_cmp(a.skip(1), b.skip(1))
    }
}

/// Whether a relation holds of two byte sequences under `lex_cmp`.
pub open spec fn relation_holds(rel: Relation, a: Seq<u8>, b: Seq<u8>) -> bool {
    match rel {
        Relation::LessThan => lex_cmp(a, b) is Less,
        Relation::LessThanEq => !(lex_cmp(a, b) is Greater),
        Relation::GreaterThan => lex_cmp(a, b) is Greater,
        Relation::GreaterThanEq => !(lex_cmp(a, b) is Less),
        Relation::Equal => lex_cmp(a, b) is Same,
        Relation::NotEqual => !(lex_cmp(a, b) is Same),
    }
}

/// Two byte sequences compare `Same` exactly when they are equal element for
/// element, and `NotEqual` holds exactly when `Equal` does not.
pub proof fn lemma_lex_cmp_same_iff_eq(a: Seq<u8>, b: Seq<u8>)
    ensures
        lex_cmp(a, b) is Same <==> a == b,
        relation_holds(Relation::Equal, a, b) <==> a == b,
        relation_holds(Relation::NotEqual, a, b) <==> !relation_holds(Relation::Equal, a, b),
    decreases a.len(),
{
    if a.len() == 0 && b.len() == 0 {
        assert(a =~= b);
    } else if a.len() != 0 && b.len() != 0 && a[0] == b[0] {
        lemma_lex_cmp_same_iff_eq(a.skip(1), b.skip(1));
        if lex_cmp(a, b) is Same {
            assert(a.skip(1) == b.skip(1));
            assert(a.len() == b.len());
            assert forall|i: int| 0 <= i < a.len() implies a[i] == b[i] by {
                if i >= 1 {
                    assert(a[i] == a.skip(1)[i - 1]);
                    assert(b[i] == b.skip(1)[i - 1]);
                }
            }
            assert(a =~= b);
        } else {
            if a =~= b {
                assert(a.skip(1) =~= b.skip(1));
            }
        }
    } else {
        if a =~= b && a.len() != 0 {
            assert(a[0] == b[0]);
        }
    }
}

/// Compares two byte vectors lexicographically.
pub fn compare_bytes(a: &Vec<u8>, b: &Vec<u8>) -> (r: Cmp)
    ensures
        r == lex_cmp(a@, b@),
{
    let mut i: usize = 0;
    proof {
        assert(a@.skip(0) =~= a@);
        assert(b@.skip(0) =~= b@);
    }
    loop
        invariant
            i <= a@.len(),
            i <= b@.len(),
            lex_cmp(a@, b@) == lex_cmp(a@.skip(i as int), b@.skip(i as int)),
        decreases a@.len() - i,
    {
        proof {
            lemma_lex_cmp_skip_step(a@, b@, i as int);
        }
        if i >= a.len() && i >= b.len() {
            return Cmp::Same;
        } else if i >= a.len() {
            return Cmp::Less;
        } else if i >= b.len() {
            return Cmp::Greater;
        } else if a[i] < b[i] {
            return Cmp::Less;
        } else if a[i] > b[i] {
            return Cmp::Greater;
        }
        i += 1;
    }
}

/// One unfolding step of `lex_cmp` at offset `i`: when the prefixes of
/// length `i` are already known equal, the comparison of the suffixes at `i`
/// is decided by the bytes at `i`, or continues at `i + 1`.
proof fn lemma_lex_cmp_skip_step(a: Seq<u8>, b: Seq<u8>, i: int)
    requires
        0 <= i <= a.len(),
        0 <= i <= b.len(),
    ensures
        (i < a.len() && i < b.len() && a[i] == b[i]) ==> lex_cmp(a.skip(i), b.skip(i)) == lex_cmp(
            a.skip(i + 1),
            b.skip(i + 1),
        ),
        (i == a.len() && i == b.len()) ==> lex_cmp(a.skip(i), b.skip(i)) == Cmp::Same,
        (i == a.len() && i < b.len()) ==> lex_cmp(a.skip(i), b.skip(i)) == Cmp::Less,
        (i < a.len() && i == b.len()) ==> lex_cmp(a.skip(i), b.skip(i)) == Cmp::Greater,
        (i < a.len() && i < b.len() && a[i] < b[i]) ==> lex_cmp(a.skip(i), b.skip(i)) == Cmp::Less,
        (i < a.len() && i < b.len() && a[i] > b[i]) ==> lex_cmp(a.skip(i), b.skip(i))
            == Cmp::Greater,
{
    if i < a.len() && i < b.len() && a[i] == b[i] {
        assert(a.skip(i).skip(1) =~= a.skip(i + 1));
        assert(b.skip(i).skip(1) =~= b.skip(i + 1));
    }
}

/// The relation token at offset `i`, if any: the two-character tokens
/// `<=`, `>=` and `!=` are matched before the single-character fallback,
/// so that `<=` is never read as `<` followed by a stray `=`.
pub open spec fn spec_parse_relation(s: Seq<u8>, i: int) -> Option<(int, Relation)>
    recommends
        0 <= i <= s.len(),
{
    if i + 2 <= s.len() && s[i] == 60 && s[i + 1] == 61 {
        Some((i + 2, Relation::LessThanEq))
    } else if i + 2 <= s.len() && s[i] == 62 && s[i + 1] == 61 {
        Some((i + 2, Relation::GreaterThanEq))
    } else if i + 2 <= s.len() && s[i] == 33 && s[i + 1] == 61 {
        Some((i + 2, Relation::NotEqual))
    } else if i < s.len() && s[i] == 60 {
        Some((i + 1, Relation::LessThan))
    } else if i < s.len() && s[i] == 62 {
        Some((i + 1, Relation::GreaterThan))
    } else if i < s.len() && s[i] == 61 {
        Some((i + 1, Relation::Equal))
    } else {
        None
    }
}

/// Parses one of the single-character relation tokens `<`, `>`, `=`.
pub fn parse_relation_strict(s: &[u8], i: usize) -> (r: Result<(usize, Relation), ParseError>)
    requires
        i <= s@.len(),
    ensures
        match r {
            Ok((j, rel)) => i < s@.len() && j == i + 1 && ((s@[i as int] == 60 && rel
                == Relation::LessThan) || (s@[i as int] == 62 && rel == Relation::GreaterThan) || (
            s@[i as int] == 61 && rel == Relation::Equal)),
            Err(e) => !(i < s@.len() && (s@[i as int] == 60 || s@[i as int] == 62 || s@[i as int]
                == 61)) && e == (ParseError { at: i, rule: Rule::Relation }),
        },
{
    if i < s.len() && s[i] == 60 {
        Ok((i + 1, Relation::LessThan))
    } else if i < s.len() && s[i] == 62 {
        Ok((i + 1, Relation::GreaterThan))
    } else if i < s.len() && s[i] == 61 {
        Ok((i + 1, Relation::Equal))
    } else {
        Err(ParseError { at: i, rule: Rule::Relation })
    }
}

/// Parses a relation token, two-character tokens first.
pub fn parse_relation(s: &[u8], i: usize) -> (r: Result<(usize, Relation), ParseError>)
    requires
        i <= s@.len(),
    ensures
        match r {
            Ok((j, rel)) => spec_parse_relation(s@, i as int) == Some((j as int, rel)) && i < j
                <= s@.len(),
            Err(e) => spec_parse_relation(s@, i as int) is None && e == (ParseError {
                at: i,
                rule: Rule::Relation,
            }),
        },
{
    if s.len() - i >= 2 && s[i + 1] == 61 && (s[i] == 60 || s[i] == 62 || s[i] == 33) {
        if s[i] == 60 {
            Ok((i + 2, Relation::LessThanEq))
        } else if s[i] == 62 {
            Ok((i + 2, Relation::GreaterThanEq))
        } else {
            Ok((i + 2, Relation::NotEqual))
        }
    } else {
        parse_relation_strict(s, i)
    }
}

/// Decides a relation on two byte vectors, lexicographically.
pub fn check_relation(rel: &Relation, a: &Vec<u8>, b: &Vec<u8>) -> (r: bool)
    ensures
        r == relation_holds(*rel, a@, b@),
{
    let c = compare_bytes(a, b);
    match rel {
        Relation::LessThan => matches!(c, Cmp::Less),
        Relation::LessThanEq => !matches!(c, Cmp::Greater),
        Relation::GreaterThan => matches!(c, Cmp::Greater),
        Relation::GreaterThanEq => !matches!(c, Cmp::Less),
        Relation::Equal => matches!(c, Cmp::Same),
        Relation::NotEqual => !matches!(c, Cmp::Same),
    }
}

} // verus!
