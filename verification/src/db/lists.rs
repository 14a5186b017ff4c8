//! List commands: LPUSH, RPUSH, LPOP, RPOP, LLEN, and LRANGE with its
//! negative-offset resolution.

use vstd::prelude::*;

use crate::assoc::{assoc_lookup, assoc_set};
use crate::db::CoreState;
use crate::resp::{RespData, RespVal};

verus! {

/// What LPUSH does: an absent key becomes a one-element list; an
/// existing list gains the value at its front and the new length is
/// answered; any other stored value is left alone and answered with
/// the wrong-type error.
pub open spec fn lpush_spec(m: Seq<(Seq<char>, RespVal)>, k: Seq<char>, v: RespVal) -> (
    Seq<(Seq<char>, RespVal)>,
    RespVal,
) {
    match assoc_lookup(m, k) {
        None => (assoc_set(m, k, RespVal::List(seq![v])), RespVal::Number(1)),
        Some(RespVal::List(l)) => (
            assoc_set(m, k, RespVal::List(seq![v] + l)),
            RespVal::Number((l.len() + 1) as i64),
        ),
        Some(_) => (m, crate::resp::wrong_type_val()),
    }
}

/// What RPUSH does: as LPUSH, with the value appended at the back.
pub open spec fn rpush_spec(m: Seq<(Seq<char>, RespVal)>, k: Seq<char>, v: RespVal) -> (
    Seq<(Seq<char>, RespVal)>,
    RespVal,
) {
    match assoc_lookup(m, k) {
        None => (assoc_set(m, k, RespVal::List(seq![v])), RespVal::Number(1)),
        Some(RespVal::List(l)) => (
            assoc_set(m, k, RespVal::List(l.push(v))),
            RespVal::Number((l.len() + 1) as i64),
        ),
        Some(_) => (m, crate::resp::wrong_type_val()),
    }
}

/// What LPOP does: the front element is removed and answered; an
/// absent key or an empty list answers nil without change; any other
/// stored value answers the wrong-type error without change.
pub open spec fn lpop_spec(m: Seq<(Seq<char>, RespVal)>, k: Seq<char>) -> (
    Seq<(Seq<char>, RespVal)>,
    RespVal,
) {
    match assoc_lookup(m, k) {
        None => (m, RespVal::NullString),
        Some(RespVal::List(l)) => {
            if l.len() == 0 {
                (m, RespVal::NullString)
            } else {
                (assoc_set(m, k, RespVal::List(l.drop_first())), l[0])
            }
        }
        Some(_) => (m, crate::resp::wrong_type_val()),
    }
}

/// What RPOP does: as LPOP, at the back.
pub open spec fn rpop_spec(m: Seq<(Seq<char>, RespVal)>, k: Seq<char>) -> (
    Seq<(Seq<char>, RespVal)>,
    RespVal,
) {
    match assoc_lookup(m, k) {
        None => (m, RespVal::NullString),
        Some(RespVal::List(l)) => {
            if l.len() == 0 {
                (m, RespVal::NullString)
            } else {
                (assoc_set(m, k, RespVal::List(l.drop_last())), l.last())
            }
        }
        Some(_) => (m, crate::resp::wrong_type_val()),
    }
}

/// What LLEN answers: the element count of a stored list, nil for an
/// absent key or a non-list value.
pub open spec fn llen_spec(m: Seq<(Seq<char>, RespVal)>, k: Seq<char>) -> RespVal {
    match assoc_lookup(m, k) {
        Some(RespVal::List(l)) => RespVal::Number(l.len() as i64),
        _ => RespVal::NullString,
    }
}

/// A zero-based position: a non-negative offset counts from the front,
/// a negative one from just past the back.
pub open spec fn resolve_offset(len: int, o: int) -> int {
    if o >= 0 {
        o
    } else {
        len + o
    }
}

/// The elements LRANGE selects: positions from the resolved start to
/// the resolved end inclusive, clamped to the valid index range; empty
/// when the clamped bounds cross.
pub open spec fn lrange_slice(l: Seq<RespVal>, start: i64, end: i64) -> Seq<RespVal> {
    let lo0 = resolve_offset(l.len() as int, start as int);
    let hi0 = resolve_offset(l.len() as int, end as int);
    let lo = if lo0 < 0 {
        0
    } else {
        lo0
    };
    let hi = if hi0 > l.len() - 1 {
        l.len() - 1
    } else {
        hi0
    };
    if lo > hi {
        Seq::empty()
    } else {
        l.subrange(lo, hi + 1)
    }
}

/// What LRANGE answers: the selected slice of a stored list, nil for
/// an absent key or a non-list value; never a mutation.
pub open spec fn lrange_spec(m: Seq<(Seq<char>, RespVal)>, k: Seq<char>, start: i64, end: i64) -> RespVal {
    match assoc_lookup(m, k) {
        Some(RespVal::List(l)) => RespVal::List(lrange_slice(l, start, end)),
        _ => RespVal::NullString,
    }
}

/// Push `data` at the front of the list under `key`, as `lpush_spec`
/// describes.
pub fn lpush(state: &mut CoreState, key: &String, data: RespData) -> (r: RespData)
    requires
        old(state).wf(),
    ensures
        final(state).wf(),
        final(state)@ == lpush_spec(old(state)@, key@, data@).0,
        r@ == lpush_spec(old(state)@, key@, data@).1,
{
    match state.find_entry(key) {
        Some(i) => {
            let cur = state.value_at(i).clone();
            match cur {
                RespData::List(mut items) => {
                    let ghost l = RespData::deep_seq(items@);
                    let ghost prev = items@;
                    items.insert(0, data);
                    proof {
                        RespData::lemma_deep_seq(prev);
                        RespData::lemma_deep_seq(items@);
                        assert(items@ =~= seq![data].add(prev));
                        assert(RespData::deep_seq(items@) =~= seq![data@] + l);
                        crate::assoc::lemma_assoc_find_spec(state@, key@);
                    }
                    let n = items.len() as i64;
                    state.replace_at(i, RespData::List(items));
                    RespData::Number(n)
                }
                _ => RespData::wrong_type(),
            }
        }
        None => {
            let items = vec![data];
            proof {
                RespData::lemma_deep_seq(items@);
                assert(RespData::deep_seq(items@) =~= seq![items@[0]@]);
            }
            state.append_entry(key.clone(), RespData::List(items));
            RespData::Number(1)
        }
    }
}

/// Push `data` at the back of the list under `key`, as `rpush_spec`
/// describes.
pub fn rpush(state: &mut CoreState, key: &String, data: RespData) -> (r: RespData)
    requires
        old(state).wf(),
    ensures
        final(state).wf(),
        final(state)@ == rpush_spec(old(state)@, key@, data@).0,
        r@ == rpush_spec(old(state)@, key@, data@).1,
{
    match state.find_entry(key) {
        Some(i) => {
            let cur = state.value_at(i).clone();
            match cur {
                RespData::List(mut items) => {
                    let ghost l = RespData::deep_seq(items@);
                    let ghost prev = items@;
                    items.push(data);
                    proof {
                        RespData::lemma_deep_seq(prev);
                        RespData::lemma_deep_seq(items@);
                        assert(RespData::deep_seq(items@) =~= l.push(data@));
                        crate::assoc::lemma_assoc_find_spec(state@, key@);
                    }
                    let n = items.len() as i64;
                    state.replace_at(i, RespData::List(items));
                    RespData::Number(n)
                }
                _ => RespData::wrong_type(),
            }
        }
        None => {
            let items = vec![data];
            proof {
                RespData::lemma_deep_seq(items@);
                assert(RespData::deep_seq(items@) =~= seq![items@[0]@]);
            }
            state.append_entry(key.clone(), RespData::List(items));
            RespData::Number(1)
        }
    }
}

/// Remove and answer the front element of the list under `key`, as
/// `lpop_spec` describes.
pub fn lpop(state: &mut CoreState, key: &String) -> (r: RespData)
    requires
        old(state).wf(),
    ensures
        final(state).wf(),
        final(state)@ == lpop_spec(old(state)@, key@).0,
        r@ == lpop_spec(old(state)@, key@).1,
{
    match state.find_entry(key) {
        Some(i) => {
            let cur = state.value_at(i).clone();
            match cur {
                RespData::List(mut items) => {
                    if items.len() == 0 {
                        RespData::nil()
                    } else {
                        let ghost l = RespData::deep_seq(items@);
                        let ghost prev = items@;
                        let first = items.remove(0);
                        proof {
                            RespData::lemma_deep_seq(prev);
                            RespData::lemma_deep_seq(items@);
                            assert(items@ =~= prev.drop_first());
                            assert(RespData::deep_seq(items@) =~= l.drop_first());
                            assert(first@ == l[0]);
                            crate::assoc::lemma_assoc_find_spec(state@, key@);
                        }
                        state.replace_at(i, RespData::List(items));
                        first
                    }
                }
                _ => RespData::wrong_type(),
            }
        }
        None => RespData::nil(),
    }
}

/// Remove and answer the back element of the list under `key`, as
/// `rpop_spec` describes.
pub fn rpop(state: &mut CoreState, key: &String) -> (r: RespData)
    requires
        old(state).wf(),
    ensures
        final(state).wf(),
        final(state)@ == rpop_spec(old(state)@, key@).0,
        r@ == rpop_spec(old(state)@, key@).1,
{
    match state.find_entry(key) {
        Some(i) => {
            let cur = state.value_at(i).clone();
            match cur {
                RespData::List(mut items) => {
                    if items.len() == 0 {
                        RespData::nil()
                    } else {
                        let ghost l = RespData::deep_seq(items@);
                        let ghost prev = items@;
                        let last = items.remove(items.len() - 1);
                        proof {
                            RespData::lemma_deep_seq(prev);
                            RespData::lemma_deep_seq(items@);
                            assert(items@ =~= prev.drop_last());
                            assert(RespData::deep_seq(items@) =~= l.drop_last());
                            assert(last@ == l.last());
                            crate::assoc::lemma_assoc_find_spec(state@, key@);
                        }
                        state.replace_at(i, RespData::List(items));
                        last
                    }
                }
                _ => RespData::wrong_type(),
            }
        }
        None => RespData::nil(),
    }
}

/// Answer the element count of the list under `key`, as `llen_spec`
/// describes.
pub fn llen(state: &CoreState, key: &String) -> (r: RespData)
    ensures
        r@ == llen_spec(state@, key@),
{
    match state.find_entry(key) {
        Some(i) => {
            match state.value_at(i) {
                RespData::List(items) => {
                    proof {
                        RespData::lemma_deep_seq(items@);
                    }
                    RespData::Number(items.len() as i64)
                }
                _ => RespData::nil(),
            }
        }
        None => RespData::nil(),
    }
}

/// Answer the selected slice of the list under `key`, as `lrange_spec`
/// describes.
pub fn lrange(state: &CoreState, key: &String, start: i64, end: i64) -> (r: RespData)
    ensures
        r@ == lrange_spec(state@, key@, start, end),
{
    match state.find_entry(key) {
        Some(i) => {
            match state.value_at(i) {
                RespData::List(items) => {
                    proof {
                        RespData::lemma_deep_seq(items@);
                    }
                    RespData::List(slice_items(items, start, end))
                }
                _ => RespData::nil(),
            }
        }
        None => RespData::nil(),
    }
}

/// The magnitude of a negative offset, as an unsigned count.
fn neg_magnitude(o: i64) -> (r: u64)
    requires
        o < 0,
    ensures
        r == -(o as int),
{
    ((-(o + 1)) as u64) + 1
}

/// Copy out the elements `lrange_slice` selects from `items`.
fn slice_items(items: &Vec<RespData>, start: i64, end: i64) -> (r: Vec<RespData>)
    ensures
        RespData::deep_seq(r@) == lrange_slice(RespData::deep_seq(items@), start, end),
{
    let ghost l = RespData::deep_seq(items@);
    proof {
        RespData::lemma_deep_seq(items@);
    }
    let len_u: u64 = items.len() as u64;
    let empty_out: Vec<RespData> = Vec::new();
    proof {
        RespData::lemma_deep_seq(empty_out@);
        assert(RespData::deep_seq(empty_out@) =~= Seq::<RespVal>::empty());
    }
    if len_u == 0 {
        return empty_out;
    }
    let lo_u: u64 = if start >= 0 {
        start as u64
    } else {
        let mag = neg_magnitude(start);
        if mag > len_u {
            0
        } else {
            len_u - mag
        }
    };
    let hi_has: bool;
    let hi_u: u64;
    if end >= 0 {
        hi_has = true;
        hi_u = if (end as u64) > len_u - 1 {
            len_u - 1
        } else {
            end as u64
        };
    } else {
        let mag = neg_magnitude(end);
        if mag > len_u {
            hi_has = false;
            hi_u = 0;
        } else {
            hi_has = true;
            hi_u = len_u - mag;
        }
    }
    if !hi_has || lo_u > hi_u {
        proof {
            let lo0 = resolve_offset(l.len() as int, start as int);
            let hi0 = resolve_offset(l.len() as int, end as int);
            let lo = if lo0 < 0 {
                0
            } else {
                lo0
            };
            let hi = if hi0 > l.len() - 1 {
                l.len() - 1
            } else {
                hi0
            };
            assert(lo > hi);
        }
        return empty_out;
    }
    let lo: usize = lo_u as usize;
    let hi: usize = hi_u as usize;
    let mut out: Vec<RespData> = Vec::new();
    let mut j: usize = lo;
    while j <= hi
        invariant
            lo <= j <= hi + 1,
            hi < items@.len(),
            items@.len() <= usize::MAX,
            out@.len() == j - lo,
            forall|t: int| 0 <= t < out@.len() ==> (#[trigger] out@[t])@ == items@[lo + t]@,
        decreases hi + 1 - j,
    {
        out.push(items[j].clone());
        j = j + 1;
    }
    proof {
        RespData::lemma_deep_seq(out@);
        RespData::lemma_deep_seq(items@);
        assert(RespData::deep_seq(out@) =~= l.subrange(lo as int, hi + 1));
    }
    out
}

} // verus!

verus! {

/// The key-space after `vs` are pushed at the back of `k`'s list, one
/// after another, in order.
pub open spec fn rpush_all(
    m: Seq<(Seq<char>, RespVal)>,
    k: Seq<char>,
    vs: Seq<RespVal>,
) -> Seq<(Seq<char>, RespVal)>
    decreases vs.len(),
{
    if vs.len() == 0 {
        m
    } else {
        rpush_all(rpush_spec(m, k, vs[0]).0, k, vs.drop_first())
    }
}

/// The key-space and the popped values after the front of `k`'s list
/// is taken `n` times, in order.
pub open spec fn lpop_run(m: Seq<(Seq<char>, RespVal)>, k: Seq<char>, n: nat) -> (
    Seq<(Seq<char>, RespVal)>,
    Seq<RespVal>,
)
    decreases n,
{
    if n == 0 {
        (m, Seq::empty())
    } else {
        let stepped = lpop_spec(m, k);
        let rest = lpop_run(stepped.0, k, (n - 1) as nat);
        (rest.0, seq![stepped.1] + rest.1)
    }
}

/// Pushing `vs` at the back of a stored list appends them in order.
pub proof fn lemma_rpush_all_appends(
    m: Seq<(Seq<char>, RespVal)>,
    k: Seq<char>,
    l: Seq<RespVal>,
    vs: Seq<RespVal>,
)
    requires
        assoc_lookup(m, k) == Some(RespVal::List(l)),
    ensures
        assoc_lookup(rpush_all(m, k, vs), k) == Some(RespVal::List(l + vs)),
        forall|k2: Seq<char>|
            k2 != k ==> #[trigger] assoc_lookup(rpush_all(m, k, vs), k2) == assoc_lookup(m, k2),
    decreases vs.len(),
{
    if vs.len() == 0 {
        assert(l + vs =~= l);
    } else {
        let m1 = rpush_spec(m, k, vs[0]).0;
        crate::assoc::lemma_assoc_set(m, k, RespVal::List(l.push(vs[0])));
        assert(assoc_lookup(m1, k) == Some(RespVal::List(l.push(vs[0]))));
        lemma_rpush_all_appends(m1, k, l.push(vs[0]), vs.drop_first());
        assert(l.push(vs[0]) + vs.drop_first() =~= l + vs);
    }
}

/// Popping the front as many times as a stored list is long returns
/// exactly its elements, in order.
pub proof fn lemma_lpop_run_drains(m: Seq<(Seq<char>, RespVal)>, k: Seq<char>, l: Seq<RespVal>)
    requires
        assoc_lookup(m, k) == Some(RespVal::List(l)),
    ensures
        lpop_run(m, k, l.len()).1 == l,
    decreases l.len(),
{
    if l.len() > 0 {
        let m1 = lpop_spec(m, k).0;
        crate::assoc::lemma_assoc_set(m, k, RespVal::List(l.drop_first()));
        assert(assoc_lookup(m1, k) == Some(RespVal::List(l.drop_first())));
        lemma_lpop_run_drains(m1, k, l.drop_first());
        assert(seq![l[0]] + l.drop_first() =~= l);
    }
}

/// First-in, first-out per key: starting with no binding for `k`,
/// pushing `vs` at the back one by one and then popping the front as
/// many times returns exactly `vs`, in the order pushed.
pub proof fn lemma_fifo(m: Seq<(Seq<char>, RespVal)>, k: Seq<char>, vs: Seq<RespVal>)
    requires
        assoc_lookup(m, k) is None,
    ensures
        lpop_run(rpush_all(m, k, vs), k, vs.len()).1 == vs,
{
    if vs.len() == 0 {
        assert(lpop_run(m, k, 0).1 =~= vs);
    } else {
        let m1 = rpush_spec(m, k, vs[0]).0;
        crate::assoc::lemma_assoc_set(m, k, RespVal::List(seq![vs[0]]));
        assert(assoc_lookup(m1, k) == Some(RespVal::List(seq![vs[0]])));
        lemma_rpush_all_appends(m1, k, seq![vs[0]], vs.drop_first());
        assert(seq![vs[0]] + vs.drop_first() =~= vs);
        lemma_lpop_run_drains(rpush_all(m, k, vs), k, vs);
    }
}

} // verus!
