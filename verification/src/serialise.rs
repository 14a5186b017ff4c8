//! Encoding: the total, pure function from values to their wire text.

use vstd::prelude::*;

use vstd::std_specs::iter::IteratorSpec;

use crate::numbers::{dec_digits, dec_int, push_i64, push_u64_digits};
use crate::resp::{RespData, RespVal};

verus! {

/// The record terminator.
pub open spec fn crlf() -> Seq<char> {
    seq!['\r', '\n']
}

/// The wire text of a value: `+`, `-`, `:`, `$` or `*` dispatch, each
/// record ended by CR LF, lists followed by their encoded elements.
pub open spec fn encode_val(v: RespVal) -> Seq<char>
    decreases v,
{
    match v {
        RespVal::SimpleStr(s) => seq!['+'] + s + crlf(),
        RespVal::Error(s) => seq!['-'] + s + crlf(),
        RespVal::Number(n) => seq![':'] + dec_int(n as int) + crlf(),
        RespVal::BulkStr(s) => seq!['$'] + dec_digits(s.len()) + crlf() + s + crlf(),
        RespVal::NullString => seq!['$', '-', '1'] + crlf(),
        RespVal::List(items) => seq!['*'] + dec_digits(items.len()) + crlf() + encode_items(items),
    }
}

/// The concatenated wire text of a sequence of values, in order.
pub open spec fn encode_items(items: Seq<RespVal>) -> Seq<char>
    decreases items,
{
    if items.len() == 0 {
        Seq::empty()
    } else {
        encode_val(items[0]) + encode_items(items.drop_first())
    }
}

/// Encoding distributes over concatenation of item sequences.
pub proof fn lemma_encode_items_append(a: Seq<RespVal>, b: Seq<RespVal>)
    ensures
        encode_items(a + b) == encode_items(a) + encode_items(b),
    decreases a.len(),
{
    if a.len() == 0 {
        assert(a + b =~= b);
        assert(encode_items(a) + encode_items(b) =~= encode_items(b));
    } else {
        assert((a + b).drop_first() =~= a.drop_first() + b);
        lemma_encode_items_append(a.drop_first(), b);
        assert((a + b)[0] == a[0]);
        assert(encode_val(a[0]) + (encode_items(a.drop_first()) + encode_items(b)) =~= (encode_val(
            a[0],
        ) + encode_items(a.drop_first())) + encode_items(b));
    }
}

/// The characters of a string slice, in order.
pub fn str_chars(s: &str) -> (r: Vec<char>)
    ensures
        r@ == s@,
{
    let mut it = s.chars();
    let mut out: Vec<char> = Vec::new();
    loop
        invariant
            it.obeys_prophetic_iter_laws(),
            out@ + it.remaining() == s@,
        decreases s@.len() - out@.len(),
    {
        let ghost prev = it.remaining();
        match it.next() {
            Some(c) => {
                out.push(c);
                proof {
                    assert(out@ + it.remaining() =~= s@);
                }
            }
            None => {
                proof {
                    assert(out@ =~= s@);
                }
                return out;
            }
        }
    }
}

/// Relies on `String`'s construction from a character iterator
/// (`FromIterator<char>`): the resulting string holds exactly the
/// characters of `v`, in order.
#[verifier::external_body]
pub fn chars_string(v: Vec<char>) -> (r: String)
    ensures
        r@ == v@,
{
    v.into_iter().collect()
}

/// Append the characters of `s` to `out`.
fn push_str(s: &String, out: &mut Vec<char>)
    ensures
        final(out)@ == old(out)@ + s@,
{
    let mut cs = str_chars(s.as_str());
    out.append(&mut cs);
}

/// Append the wire text of `v` to `out`.
fn write_val(v: &RespData, out: &mut Vec<char>)
    ensures
        final(out)@ == old(out)@ + encode_val(v@),
    decreases *v,
{
    match v {
        RespData::SimpleStr(s) => {
            out.push('+');
            push_str(s, out);
            out.push('\r');
            out.push('\n');
            proof {
                assert(out@ =~= old(out)@ + encode_val(v@));
            }
        }
        RespData::Error(s) => {
            out.push('-');
            push_str(s, out);
            out.push('\r');
            out.push('\n');
            proof {
                assert(out@ =~= old(out)@ + encode_val(v@));
            }
        }
        RespData::Number(n) => {
            out.push(':');
            push_i64(*n, out);
            out.push('\r');
            out.push('\n');
            proof {
                assert(out@ =~= old(out)@ + encode_val(v@));
            }
        }
        RespData::BulkStr(s) => {
            out.push('$');
            let len = s.as_str().unicode_len();
            push_u64_digits(len as u64, out);
            out.push('\r');
            out.push('\n');
            push_str(s, out);
            out.push('\r');
            out.push('\n');
            proof {
                assert(out@ =~= old(out)@ + encode_val(v@));
            }
        }
        RespData::NullString => {
            out.push('$');
            out.push('-');
            out.push('1');
            out.push('\r');
            out.push('\n');
            proof {
                assert(out@ =~= old(out)@ + encode_val(v@));
            }
        }
        RespData::List(items) => {
            write_list(items, out);
        }
    }
}

/// Append the wire text of a list value: its `*`-prefixed count, then
/// each element's encoding in order.
fn write_list(items: &Vec<RespData>, out: &mut Vec<char>)
    ensures
        final(out)@ == old(out)@ + encode_val(RespVal::List(RespData::deep_seq(items@))),
    decreases *items,
{
    let ghost vs = RespData::deep_seq(items@);
    proof {
        RespData::lemma_deep_seq(items@);
    }
    out.push('*');
    push_u64_digits(items.len() as u64, out);
    out.push('\r');
    out.push('\n');
    let ghost header_done = out@;
    proof {
        assert(header_done =~= old(out)@ + (seq!['*'] + dec_digits(vs.len()) + crlf()));
    }
    let mut i: usize = 0;
    while i < items.len()
        invariant
            RespData::deep_seq(items@) == vs,
            vs.len() == items@.len(),
            forall|j: int| 0 <= j < items@.len() ==> vs[j] == items@[j].deep(),
            i <= items@.len(),
            out@ == header_done + encode_items(vs.take(i as int)),
        decreases items@.len() - i,
    {
        proof {
            assert(decreases_to!(*items => items[i as int]));
        }
        write_val(&items[i], out);
        proof {
            assert(vs.take(i + 1) =~= vs.take(i as int) + seq![vs[i as int]]);
            lemma_encode_items_append(vs.take(i as int), seq![vs[i as int]]);
            assert(encode_items(seq![vs[i as int]]) =~= encode_val(vs[i as int]) + encode_items(
                seq![vs[i as int]].drop_first(),
            ));
            assert(seq![vs[i as int]].drop_first() =~= Seq::<RespVal>::empty());
            assert(encode_items(seq![vs[i as int]]) =~= encode_val(vs[i as int]));
            assert(out@ =~= header_done + encode_items(vs.take(i + 1)));
        }
        i = i + 1;
    }
    proof {
        assert(vs.take(i as int) =~= vs);
        assert(out@ =~= old(out)@ + encode_val(RespVal::List(vs)));
    }
}

impl RespData {
    /// The wire text of this value, exactly as `encode_val` describes it.
    pub fn as_string(&self) -> (r: String)
        ensures
            r@ == encode_val(self@),
    {
        let mut out: Vec<char> = Vec::new();
        write_val(self, &mut out);
        chars_string(out)
    }
}

} // verus!
