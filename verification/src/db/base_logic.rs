//! The engine's transition function: one command applied to one
//! database, one at a time.

use vstd::prelude::*;

use crate::assoc::{assoc_lookup, assoc_set};
use crate::command::{Command, CommandVal};
use crate::db::admin;
use crate::db::key_val;
use crate::db::lists;
use crate::db::number;
use crate::db::CoreState;
use crate::resp::{RespData, RespVal};

verus! {

/// What one routed command does to a database: the new key-space and
/// the reply. Commands the session answers itself are refused here.
pub open spec fn apply_spec(m: Seq<(Seq<char>, RespVal)>, c: CommandVal) -> (
    Seq<(Seq<char>, RespVal)>,
    RespVal,
) {
    match c {
        CommandVal::SetKey(k, v) => (assoc_set(m, k, v), crate::resp::ok_val()),
        CommandVal::Get(k) => (
            m,
            match assoc_lookup(m, k) {
                Some(v) => v,
                None => RespVal::NullString,
            },
        ),
        CommandVal::FlushAll => (Seq::empty(), crate::resp::ok_val()),
        CommandVal::Incr(k, by) => number::incr_spec(m, k, by),
        CommandVal::Decr(k, by) => number::decr_spec(m, k, by),
        CommandVal::Lpush(k, v) => lists::lpush_spec(m, k, v),
        CommandVal::Rpush(k, v) => lists::rpush_spec(m, k, v),
        CommandVal::Lpop(k) => lists::lpop_spec(m, k),
        CommandVal::Rpop(k) => lists::rpop_spec(m, k),
        CommandVal::Llen(k) => (m, lists::llen_spec(m, k)),
        CommandVal::Lrange(k, a, b) => (m, lists::lrange_spec(m, k, a, b)),
        CommandVal::Keys => (m, admin::keys_spec(m)),
        CommandVal::Dump(k) => (m, admin::dump_spec(m, k)),
        _ => (m, RespVal::Error("Unknown core cmd"@)),
    }
}

/// Apply one routed command to the database, as `apply_spec` describes.
pub fn core_logic(state: &mut CoreState, cmd: Command) -> (r: RespData)
    requires
        old(state).wf(),
    ensures
        final(state).wf(),
        final(state)@ == apply_spec(old(state)@, cmd@).0,
        r@ == apply_spec(old(state)@, cmd@).1,
{
    match cmd {
        Command::SetKey(key, value) => key_val::set(state, key, value),
        Command::Get(key) => key_val::get(state, key),
        Command::FlushAll => admin::flushall(state),
        Command::Incr(key, maybe_by) => number::incr(state, key, maybe_by),
        Command::Decr(key, maybe_by) => number::decr(state, key, maybe_by),
        Command::Lpush(key, data) => lists::lpush(state, &key, data),
        Command::Rpush(key, data) => lists::rpush(state, &key, data),
        Command::Lpop(key) => lists::lpop(state, &key),
        Command::Rpop(key) => lists::rpop(state, &key),
        Command::Llen(key) => lists::llen(state, &key),
        Command::Lrange(key, a, b) => lists::lrange(state, &key, a, b),
        Command::Keys => admin::keys(state),
        Command::Dump(key) => admin::dump(state, &key),
        _ => RespData::Error("Unknown core cmd".to_owned()),
    }
}

} // verus!
