//! Plain key-value commands: SET and GET.

use vstd::prelude::*;

use crate::assoc::{assoc_lookup, assoc_set};
use crate::db::CoreState;
use crate::resp::{RespData, RespVal};

verus! {

/// Bind `key` to `value`, unconditionally inserting or overwriting,
/// and answer the OK marker.
pub fn set(state: &mut CoreState, key: String, value: RespData) -> (r: RespData)
    requires
        old(state).wf(),
    ensures
        final(state).wf(),
        final(state)@ == assoc_set(old(state)@, key@, value@),
        r@ == RespVal::SimpleStr("OK"@),
{
    match state.find_entry(&key) {
        Some(i) => {
            proof {
                crate::assoc::lemma_assoc_find_spec(state@, key@);
            }
            state.replace_at(i, value);
        }
        None => {
            state.append_entry(key, value);
        }
    }
    RespData::ok()
}

/// The value stored under `key`, copied out, or the nil marker when
/// the key is absent.
pub fn get(state: &CoreState, key: String) -> (r: RespData)
    ensures
        r@ == match assoc_lookup(state@, key@) {
            Some(v) => v,
            None => RespVal::NullString,
        },
{
    match state.find_entry(&key) {
        Some(i) => state.value_at(i).clone(),
        None => RespData::nil(),
    }
}

} // verus!
