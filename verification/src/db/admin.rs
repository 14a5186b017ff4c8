//! Administrative commands: FLUSHALL, KEYS, and DUMP.

use vstd::prelude::*;

use crate::assoc::assoc_lookup;
use crate::db::CoreState;
use crate::resp::{RespData, RespVal};
use crate::serialise::encode_val;

verus! {

/// What KEYS answers: every bound key as a simple string, in the order
/// of first insertion.
pub open spec fn keys_spec(m: Seq<(Seq<char>, RespVal)>) -> RespVal {
    RespVal::List(Seq::new(m.len(), |i: int| RespVal::SimpleStr(m[i].0)))
}

/// What DUMP answers: the wire text of the stored value as a bulk
/// string, or nil when the key is absent.
pub open spec fn dump_spec(m: Seq<(Seq<char>, RespVal)>, k: Seq<char>) -> RespVal {
    match assoc_lookup(m, k) {
        Some(v) => RespVal::BulkStr(encode_val(v)),
        None => RespVal::NullString,
    }
}

/// Clear the whole key-space and answer the OK marker.
pub fn flushall(state: &mut CoreState) -> (r: RespData)
    ensures
        final(state).wf(),
        final(state)@ == Seq::<(Seq<char>, RespVal)>::empty(),
        r@ == crate::resp::ok_val(),
{
    state.clear_all();
    RespData::ok()
}

/// Answer every bound key, as `keys_spec` describes.
pub fn keys(state: &CoreState) -> (r: RespData)
    ensures
        r@ == keys_spec(state@),
{
    let mut out: Vec<RespData> = Vec::new();
    let n = state.len();
    let mut i: usize = 0;
    while i < n
        invariant
            n == state@.len(),
            0 <= i <= n,
            out@.len() == i,
            forall|j: int| 0 <= j < i ==> (#[trigger] out@[j])@ == RespVal::SimpleStr(state@[j].0),
        decreases n - i,
    {
        out.push(RespData::SimpleStr(state.key_at(i).clone()));
        i = i + 1;
    }
    proof {
        RespData::lemma_deep_seq(out@);
        assert(RespData::deep_seq(out@) =~= Seq::new(
            state@.len(),
            |j: int| RespVal::SimpleStr(state@[j].0),
        ));
    }
    RespData::List(out)
}

/// Answer the wire text of the value under `key`, as `dump_spec`
/// describes.
pub fn dump(state: &CoreState, key: &String) -> (r: RespData)
    ensures
        r@ == dump_spec(state@, key@),
{
    match state.find_entry(key) {
        Some(i) => RespData::BulkStr(state.value_at(i).as_string()),
        None => RespData::nil(),
    }
}

} // verus!
