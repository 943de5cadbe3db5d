//! Designations of which transaction field a byte expression reads.
use vstd::prelude::*;

use crate::lex::{
    dec_val, digits_end, eat_tag, parse_index, skip_ws, tag_at, ws_end, ParseError, Rule,
};

verus! {

/// Which part of a transaction input a source reads.
#[derive(Clone, Copy, PartialEq, Eq, Structural, Debug)]
pub enum InputSlice {
    All,
    Script,
    Sequence,
}

/// Which part of a transaction output a source reads.
#[derive(Clone, Copy, PartialEq, Eq, Structural, Debug)]
pub enum OutputSlice {
    All,
    Script,
    Value,
}

/// Where the raw bytes of a sourced expression come from: the whole
/// serialized transaction, its identifying hash, or a slice of the input or
/// output at a numeric index. An index beyond the transaction's list resolves
/// to the empty byte sequence, not an error.
#[derive(Clone, Copy, PartialEq, Eq, Structural, Debug)]
pub enum Source {
    Transaction,
    Hash,
    Input(InputSlice, usize),
    Output(OutputSlice, usize),
}

/// The keyword `tx`.
pub open spec fn kw_tx() -> Seq<u8> {
    seq![116u8, 120u8]
}

/// The keyword `hash`.
pub open spec fn kw_hash() -> Seq<u8> {
    seq![104u8, 97u8, 115u8, 104u8]
}

/// The keyword `in`.
pub open spec fn kw_in() -> Seq<u8> {
    seq![105u8, 110u8]
}

/// The keyword `out`.
pub open spec fn kw_out() -> Seq<u8> {
    seq![111u8, 117u8, 116u8]
}

/// The keyword `all`.
pub open spec fn kw_all() -> Seq<u8> {
    seq![97u8, 108u8, 108u8]
}

/// The keyword `script`.
pub open spec fn kw_script() -> Seq<u8> {
    seq![115u8, 99u8, 114u8, 105u8, 112u8, 116u8]
}

/// The keyword `seq`.
pub open spec fn kw_seq() -> Seq<u8> {
    seq![115u8, 101u8, 113u8]
}

/// The keyword `value`.
pub open spec fn kw_value() -> Seq<u8> {
    seq![118u8, 97u8, 108u8, 117u8, 101u8]
}

/// The input-slice keyword at `i`: `all`, `script` or `seq`.
pub open spec fn spec_parse_in_slice(s: Seq<u8>, i: int) -> Option<(int, InputSlice)> {
    if tag_at(s, i, kw_all()) {
        Some((i + 3, InputSlice::All))
    } else if tag_at(s, i, kw_script()) {
        Some((i + 6, InputSlice::Script))
    } else if tag_at(s, i, kw_seq()) {
        Some((i + 3, InputSlice::Sequence))
    } else {
        None
    }
}

/// The output-slice keyword at `i`: `all`, `script` or `value`.
pub open spec fn spec_parse_out_slice(s: Seq<u8>, i: int) -> Option<(int, OutputSlice)> {
    if tag_at(s, i, kw_all()) {
        Some((i + 3, OutputSlice::All))
    } else if tag_at(s, i, kw_script()) {
        Some((i + 6, OutputSlice::Script))
    } else if tag_at(s, i, kw_value()) {
        Some((i + 5, OutputSlice::Value))
    } else {
        None
    }
}

/// The position after a `.` token at `p`, whitespace allowed around it.
pub open spec fn after_dot(s: Seq<u8>, p: int) -> Option<int>
    recommends
        0 <= p <= s.len(),
{
    let d = ws_end(s, p);
    if d < s.len() && s[d] == 46 {
        Some(ws_end(s, d + 1))
    } else {
        None
    }
}

/// A bracketed decimal index `[ n ]` at `p`: the position after `]` and the
/// index value, which must fit the machine's index type.
pub open spec fn index_suffix(s: Seq<u8>, p: int) -> Option<(int, int)>
    recommends
        0 <= p <= s.len(),
{
    let ob = ws_end(s, p);
    if !(ob < s.len() && s[ob] == 91) {
        None
    } else {
        let st = ws_end(s, ob + 1);
        let j = digits_end(s, st);
        if j == st || dec_val(s, st, j) > usize::MAX {
            None
        } else {
            let cb = ws_end(s, j);
            if cb < s.len() && s[cb] == 93 {
                Some((cb + 1, dec_val(s, st, j) as int))
            } else {
                None
            }
        }
    }
}

/// The source expression at `i`: `tx`, `hash`, `in . slice [ n ]` or
/// `out . slice [ n ]`.
pub open spec fn spec_parse_source(s: Seq<u8>, i: int) -> Option<(int, Source)>
    recommends
        0 <= i <= s.len(),
{
    if tag_at(s, i, kw_tx()) {
        Some((i + 2, Source::Transaction))
    } else if tag_at(s, i, kw_hash()) {
        Some((i + 4, Source::Hash))
    } else if tag_at(s, i, kw_in()) {
        match after_dot(s, i + 2) {
            None => None,
            Some(p) => match spec_parse_in_slice(s, p) {
                None => None,
                Some((q, sl)) => match index_suffix(s, q) {
                    None => None,
                    Some((j, n)) => Some((j, Source::Input(sl, n as usize))),
                },
            },
        }
    } else if tag_at(s, i, kw_out()) {
        match after_dot(s, i + 3) {
            None => None,
            Some(p) => match spec_parse_out_slice(s, p) {
                None => None,
                Some((q, sl)) => match index_suffix(s, q) {
                    None => None,
                    Some((j, n)) => Some((j, Source::Output(sl, n as usize))),
                },
            },
        }
    } else {
        None
    }
}

/// Parses an input-slice keyword.
pub fn parse_in_slice(s: &[u8], i: usize) -> (r: Result<(usize, InputSlice), ParseError>)
    requires
        i <= s@.len(),
    ensures
        match r {
            Ok((j, sl)) => spec_parse_in_slice(s@, i as int) == Some((j as int, sl)) && i < j
                <= s@.len(),
            Err(e) => spec_parse_in_slice(s@, i as int) is None && e == (ParseError {
                at: i,
                rule: Rule::InSlice,
            }),
        },
{
    let _slen = s.len();
    let t_all: Vec<u8> = vec![97u8, 108u8, 108u8];
    let t_script: Vec<u8> = vec![115u8, 99u8, 114u8, 105u8, 112u8, 116u8];
    let t_seq: Vec<u8> = vec![115u8, 101u8, 113u8];
    proof {
        assert(t_all@ =~= kw_all());
        assert(t_script@ =~= kw_script());
        assert(t_seq@ =~= kw_seq());
        assert(kw_all().len() == 3 && kw_script().len() == 6 && kw_seq().len() == 3);
    }
    if eat_tag(s, i, &t_all) {
        Ok((i + 3, InputSlice::All))
    } else if eat_tag(s, i, &t_script) {
        Ok((i + 6, InputSlice::Script))
    } else if eat_tag(s, i, &t_seq) {
        Ok((i + 3, InputSlice::Sequence))
    } else {
        Err(ParseError { at: i, rule: Rule::InSlice })
    }
}

/// Parses an output-slice keyword.
pub fn parse_out_slice(s: &[u8], i: usize) -> (r: Result<(usize, OutputSlice), ParseError>)
    requires
        i <= s@.len(),
    ensures
        match r {
            Ok((j, sl)) => spec_parse_out_slice(s@, i as int) == Some((j as int, sl)) && i < j
                <= s@.len(),
            Err(e) => spec_parse_out_slice(s@, i as int) is None && e == (ParseError {
                at: i,
                rule: Rule::OutSlice,
            }),
        },
{
    let _slen = s.len();
    let t_all: Vec<u8> = vec![97u8, 108u8, 108u8];
    let t_script: Vec<u8> = vec![115u8, 99u8, 114u8, 105u8, 112u8, 116u8];
    let t_value: Vec<u8> = vec![118u8, 97u8, 108u8, 117u8, 101u8];
    proof {
        assert(t_all@ =~= kw_all());
        assert(t_script@ =~= kw_script());
        assert(t_value@ =~= kw_value());
        assert(kw_all().len() == 3 && kw_script().len() == 6 && kw_value().len() == 5);
    }
    if eat_tag(s, i, &t_all) {
        Ok((i + 3, OutputSlice::All))
    } else if eat_tag(s, i, &t_script) {
        Ok((i + 6, OutputSlice::Script))
    } else if eat_tag(s, i, &t_value) {
        Ok((i + 5, OutputSlice::Value))
    } else {
        Err(ParseError { at: i, rule: Rule::OutSlice })
    }
}

/// The error a failed bracketed-index parse carries: the `source` rule at a
/// missing bracket, or the `index` rule at a missing or oversized number.
pub open spec fn spec_brackets_err(s: Seq<u8>, p: int) -> ParseError
    recommends
        0 <= p <= s.len(),
{
    let ob = ws_end(s, p);
    if !(ob < s.len() && s[ob] == 91) {
        ParseError { at: ob as usize, rule: Rule::Source }
    } else {
        let st = ws_end(s, ob + 1);
        let j = digits_end(s, st);
        if j == st || dec_val(s, st, j) > usize::MAX {
            ParseError { at: st as usize, rule: Rule::Index }
        } else {
            ParseError { at: ws_end(s, j) as usize, rule: Rule::Source }
        }
    }
}

/// The error a failed source parse carries: the `source` rule at an unknown
/// keyword or missing punctuation, the slice rule at a bad slice keyword, or
/// the bracketed index's own error.
pub open spec fn spec_source_err(s: Seq<u8>, i: int) -> ParseError
    recommends
        0 <= i <= s.len(),
{
    if tag_at(s, i, kw_tx()) || tag_at(s, i, kw_hash()) {
        ParseError { at: i as usize, rule: Rule::Source }
    } else if tag_at(s, i, kw_in()) {
        let d = ws_end(s, i + 2);
        if !(d < s.len() && s[d] == 46) {
            ParseError { at: d as usize, rule: Rule::Source }
        } else {
            let p = ws_end(s, d + 1);
            match spec_parse_in_slice(s, p) {
                Some((q, sl)) => spec_brackets_err(s, q),
                None => ParseError { at: p as usize, rule: Rule::InSlice },
            }
        }
    } else if tag_at(s, i, kw_out()) {
        let d = ws_end(s, i + 3);
        if !(d < s.len() && s[d] == 46) {
            ParseError { at: d as usize, rule: Rule::Source }
        } else {
            let p = ws_end(s, d + 1);
            match spec_parse_out_slice(s, p) {
                Some((q, sl)) => spec_brackets_err(s, q),
                None => ParseError { at: p as usize, rule: Rule::OutSlice },
            }
        }
    } else {
        ParseError { at: i as usize, rule: Rule::Source }
    }
}

/// Parses a bracketed decimal index `[ n ]`.
fn parse_index_brackets(s: &[u8], p: usize) -> (r: Result<(usize, usize), ParseError>)
    requires
        p <= s@.len(),
    ensures
        match r {
            Ok((j, n)) => index_suffix(s@, p as int) == Some((j as int, n as int)) && p < j
                <= s@.len(),
            Err(e) => index_suffix(s@, p as int) is None && e == spec_brackets_err(s@, p as int)
                && e.at <= s@.len(),
        },
{
    let ob = skip_ws(s, p);
    if !(ob < s.len() && s[ob] == 91) {
        return Err(ParseError { at: ob, rule: Rule::Source });
    }
    let st = skip_ws(s, ob + 1);
    let (j0, n) = match parse_index(s, st) {
        Ok(v) => v,
        Err(e) => {
            return Err(e);
        },
    };
    let cb = skip_ws(s, j0);
    if !(cb < s.len() && s[cb] == 93) {
        return Err(ParseError { at: cb, rule: Rule::Source });
    }
    Ok((cb + 1, n))
}

/// Parses a source expression.
pub fn parse_source(s: &[u8], i: usize) -> (r: Result<(usize, Source), ParseError>)
    requires
        i <= s@.len(),
    ensures
        match r {
            Ok((j, src)) => spec_parse_source(s@, i as int) == Some((j as int, src)) && i < j
                <= s@.len(),
            Err(e) => spec_parse_source(s@, i as int) is None && e == spec_source_err(
                s@,
                i as int,
            ) && e.at <= s@.len(),
        },
{
    let _slen = s.len();
    let t_tx: Vec<u8> = vec![116u8, 120u8];
    let t_hash: Vec<u8> = vec![104u8, 97u8, 115u8, 104u8];
    let t_in: Vec<u8> = vec![105u8, 110u8];
    let t_out: Vec<u8> = vec![111u8, 117u8, 116u8];
    proof {
        assert(t_tx@ =~= kw_tx());
        assert(t_hash@ =~= kw_hash());
        assert(t_in@ =~= kw_in());
        assert(t_out@ =~= kw_out());
        assert(kw_tx().len() == 2 && kw_hash().len() == 4 && kw_in().len() == 2 && kw_out().len()
            == 3);
    }
    if eat_tag(s, i, &t_tx) {
        Ok((i + 2, Source::Transaction))
    } else if eat_tag(s, i, &t_hash) {
        Ok((i + 4, Source::Hash))
    } else if eat_tag(s, i, &t_in) {
        let d = skip_ws(s, i + 2);
        if !(d < s.len() && s[d] == 46) {
            return Err(ParseError { at: d, rule: Rule::Source });
        }
        let p = skip_ws(s, d + 1);
        let (q, sl) = match parse_in_slice(s, p) {
            Ok(v) => v,
            Err(e) => {
                return Err(e);
            },
        };
        let (j, n) = match parse_index_brackets(s, q) {
            Ok(v) => v,
            Err(e) => {
                return Err(e);
            },
        };
        Ok((j, Source::Input(sl, n)))
    } else if eat_tag(s, i, &t_out) {
        let d = skip_ws(s, i + 3);
        if !(d < s.len() && s[d] == 46) {
            return Err(ParseError { at: d, rule: Rule::Source });
        }
        let p = skip_ws(s, d + 1);
        let (q, sl) = match parse_out_slice(s, p) {
            Ok(v) => v,
            Err(e) => {
                return Err(e);
            },
        };
        let (j, n) = match parse_index_brackets(s, q) {
            Ok(v) => v,
            Err(e) => {
                return Err(e);
            },
        };
        Ok((j, Source::Output(sl, n)))
    } else {
        Err(ParseError { at: i, rule: Rule::Source })
    }
}

} // verus!
