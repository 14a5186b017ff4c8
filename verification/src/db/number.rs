//! Numeric commands: INCR and DECR with their string coercion rule.

use vstd::prelude::*;

use crate::assoc::{assoc_lookup, assoc_set};
use crate::db::CoreState;
use crate::numbers::parse_i64_spec;
use crate::resp::{RespData, RespVal};

verus! {

/// The numeric reading of a stored value: an integer directly, or a
/// simple or bulk string that parses as a signed base-10 64-bit
/// integer; anything else has none.
pub open spec fn coerce_number(v: RespVal) -> Option<i64> {
    match v {
        RespVal::Number(n) => Some(n),
        RespVal::SimpleStr(s) => parse_i64_spec(s),
        RespVal::BulkStr(s) => parse_i64_spec(s),
        _ => None,
    }
}

/// The step applied when no explicit amount is given.
pub open spec fn delta_of(by: Option<i64>) -> i64 {
    match by {
        Some(d) => d,
        None => 1,
    }
}

/// What INCR does: an absent key counts as zero; a coercible value is
/// raised by the delta and the stored form becomes a true integer,
/// wrapping on 64-bit overflow; a non-coercible value is left alone
/// and answered with the NaN error.
pub open spec fn incr_spec(m: Seq<(Seq<char>, RespVal)>, k: Seq<char>, by: Option<i64>) -> (
    Seq<(Seq<char>, RespVal)>,
    RespVal,
) {
    let d = delta_of(by);
    match assoc_lookup(m, k) {
        None => {
            let n = vstd::wrapping::i64_specs::wrapping_add(0i64, d);
            (assoc_set(m, k, RespVal::Number(n)), RespVal::Number(n))
        }
        Some(v) => match coerce_number(v) {
            Some(cur) => {
                let n = vstd::wrapping::i64_specs::wrapping_add(cur, d);
                (assoc_set(m, k, RespVal::Number(n)), RespVal::Number(n))
            }
            None => (m, RespVal::Error("NaN"@)),
        },
    }
}

/// What DECR does: as INCR, with the delta subtracted.
pub open spec fn decr_spec(m: Seq<(Seq<char>, RespVal)>, k: Seq<char>, by: Option<i64>) -> (
    Seq<(Seq<char>, RespVal)>,
    RespVal,
) {
    let d = delta_of(by);
    match assoc_lookup(m, k) {
        None => {
            let n = vstd::wrapping::i64_specs::wrapping_sub(0i64, d);
            (assoc_set(m, k, RespVal::Number(n)), RespVal::Number(n))
        }
        Some(v) => match coerce_number(v) {
            Some(cur) => {
                let n = vstd::wrapping::i64_specs::wrapping_sub(cur, d);
                (assoc_set(m, k, RespVal::Number(n)), RespVal::Number(n))
            }
            None => (m, RespVal::Error("NaN"@)),
        },
    }
}

/// The numeric reading of a value, as `coerce_number` describes it.
pub fn can_be_number(data: &RespData) -> (r: Option<i64>)
    ensures
        r == coerce_number(data@),
{
    match data {
        RespData::Number(val) => Some(*val),
        RespData::SimpleStr(val) => parse_string_number(val),
        RespData::BulkStr(val) => parse_string_number(val),
        _ => None,
    }
}

/// Parse a stored string as a signed base-10 64-bit integer.
fn parse_string_number(s: &String) -> (r: Option<i64>)
    ensures
        r == parse_i64_spec(s@),
{
    let cs = crate::serialise::str_chars(s.as_str());
    proof {
        assert(cs@.skip(0) =~= cs@);
    }
    crate::numbers::parse_i64_range(&cs, 0)
}

/// Raise the value under `key` by the delta, as `incr_spec` describes.
pub fn incr(state: &mut CoreState, key: String, maybe_by: Option<i64>) -> (r: RespData)
    requires
        old(state).wf(),
    ensures
        final(state).wf(),
        final(state)@ == incr_spec(old(state)@, key@, maybe_by).0,
        r@ == incr_spec(old(state)@, key@, maybe_by).1,
{
    let d: i64 = match maybe_by {
        Some(x) => x,
        None => 1,
    };
    match state.find_entry(&key) {
        None => {
            let n = 0i64.wrapping_add(d);
            state.append_entry(key, RespData::Number(n));
            RespData::Number(n)
        }
        Some(i) => {
            match can_be_number(state.value_at(i)) {
                Some(cur) => {
                    let n = cur.wrapping_add(d);
                    proof {
                        crate::assoc::lemma_assoc_find_spec(state@, key@);
                    }
                    state.replace_at(i, RespData::Number(n));
                    RespData::Number(n)
                }
                None => RespData::Error("NaN".to_owned()),
            }
        }
    }
}

/// Lower the value under `key` by the delta, as `decr_spec` describes.
pub fn decr(state: &mut CoreState, key: String, maybe_by: Option<i64>) -> (r: RespData)
    requires
        old(state).wf(),
    ensures
        final(state).wf(),
        final(state)@ == decr_spec(old(state)@, key@, maybe_by).0,
        r@ == decr_spec(old(state)@, key@, maybe_by).1,
{
    let d: i64 = match maybe_by {
        Some(x) => x,
        None => 1,
    };
    match state.find_entry(&key) {
        None => {
            let n = 0i64.wrapping_sub(d);
            state.append_entry(key, RespData::Number(n));
            RespData::Number(n)
        }
        Some(i) => {
            match can_be_number(state.value_at(i)) {
                Some(cur) => {
                    let n = cur.wrapping_sub(d);
                    proof {
                        crate::assoc::lemma_assoc_find_spec(state@, key@);
                    }
                    state.replace_at(i, RespData::Number(n));
                    RespData::Number(n)
                }
                None => RespData::Error("NaN".to_owned()),
            }
        }
    }
}

} // verus!
