//! Decoding: consuming exactly one encoded record from a character
//! stream, restartably, so that back-to-back records decode in sequence.

use vstd::prelude::*;

use crate::numbers::{parse_i64_spec, parse_u64_spec};
use crate::serialise::{encode_items, encode_val};
use crate::resp::{RespData, RespVal};

verus! {

/// A CR LF pair starts at position `i` of `s`.
pub open spec fn is_crlf_at(s: Seq<char>, i: int) -> bool {
    0 <= i && i + 2 <= s.len() && s[i] == '\r' && s[i + 1] == '\n'
}

/// The position of the first CR LF pair of `s`, if any.
pub open spec fn find_crlf(s: Seq<char>) -> Option<int>
    decreases s.len(),
{
    if s.len() < 2 {
        None
    } else if s[0] == '\r' && s[1] == '\n' {
        Some(0)
    } else {
        match find_crlf(s.drop_first()) {
            Some(i) => Some(i + 1),
            None => None,
        }
    }
}

/// A found CR LF position lies within the string.
pub proof fn lemma_find_crlf_bounds(s: Seq<char>)
    ensures
        match find_crlf(s) {
            Some(i) => 0 <= i && i + 2 <= s.len(),
            None => true,
        },
    decreases s.len(),
{
    if s.len() >= 2 && !(s[0] == '\r' && s[1] == '\n') {
        lemma_find_crlf_bounds(s.drop_first());
    }
}

/// `find_crlf` returns the first CR LF pair: one lies there, and none
/// lies earlier; `None` means no pair lies anywhere.
pub proof fn lemma_find_crlf_spec(s: Seq<char>)
    ensures
        match find_crlf(s) {
            Some(i) => is_crlf_at(s, i) && forall|j: int| 0 <= j < i ==> !is_crlf_at(s, j),
            None => forall|j: int| !is_crlf_at(s, j),
        },
    decreases s.len(),
{
    if s.len() < 2 {
    } else if s[0] == '\r' && s[1] == '\n' {
    } else {
        lemma_find_crlf_spec(s.drop_first());
        let t = s.drop_first();
        assert(forall|j: int| 0 <= j ==> (is_crlf_at(s, j + 1) <==> is_crlf_at(t, j)));
        match find_crlf(t) {
            Some(i) => {
                assert(is_crlf_at(t, i));
                assert(is_crlf_at(s, i + 1));
                assert forall|j: int| 0 <= j < i + 1 implies !is_crlf_at(s, j) by {
                    if j == 0 {
                        assert(!(s[0] == '\r' && s[1] == '\n'));
                    } else {
                        assert(!is_crlf_at(t, j - 1));
                    }
                }
            }
            None => {
                assert forall|j: int| true implies !is_crlf_at(s, j) by {
                    if j == 0 {
                        assert(!(s[0] == '\r' && s[1] == '\n'));
                    } else if j >= 1 {
                        assert(!is_crlf_at(t, j - 1));
                    }
                }
            }
        }
    }
}

/// If a CR LF pair lies at `i` and none lies earlier, `find_crlf`
/// returns exactly `i`.
pub proof fn lemma_find_crlf_first(s: Seq<char>, i: int)
    requires
        is_crlf_at(s, i),
        forall|j: int| 0 <= j < i ==> !is_crlf_at(s, j),
    ensures
        find_crlf(s) == Some(i),
    decreases i,
{
    if i == 0 {
    } else {
        let t = s.drop_first();
        assert(forall|j: int| 0 <= j ==> (is_crlf_at(s, j + 1) <==> is_crlf_at(t, j)));
        assert(is_crlf_at(t, i - 1));
        assert forall|j: int| 0 <= j < i - 1 implies !is_crlf_at(t, j) by {
            assert(!is_crlf_at(s, j + 1));
        }
        lemma_find_crlf_first(t, i - 1);
        assert(s.len() >= i + 2);
        assert(!is_crlf_at(s, 0));
        assert(!(s[0] == '\r' && s[1] == '\n'));
    }
}

/// One chunk of the stream: the text up to the first CR LF (both
/// consumed), or the whole remainder when no CR LF follows; `None` only
/// on an empty stream.
pub open spec fn chunk_spec(s: Seq<char>) -> Option<(Seq<char>, nat)> {
    if s.len() == 0 {
        None
    } else {
        match find_crlf(s) {
            Some(i) => Some((s.take(i), (i + 2) as nat)),
            None => Some((s, s.len())),
        }
    }
}

/// The stream after `used` characters are consumed.
pub open spec fn rest_of(s: Seq<char>, used: nat) -> Seq<char> {
    if used <= s.len() {
        s.skip(used as int)
    } else {
        Seq::empty()
    }
}

/// The error text for an integer record whose body is not numeric.
pub open spec fn msg_bad_number() -> Seq<char> {
    "Can't parse number!"@
}

/// The error text for a bulk-string record whose length is not numeric.
pub open spec fn msg_bad_bulk() -> Seq<char> {
    "Can't process bulk string"@
}

/// The error text for an array record whose count is not numeric.
pub open spec fn msg_bad_list() -> Seq<char> {
    "Can't read list"@
}

/// The error text for an unrecognized leading byte.
pub open spec fn msg_unknown() -> Seq<char> {
    "Unknown symbol or unexpected end of stream"@
}

/// What decoding one record from `s` yields: the decoded value and the
/// number of characters consumed, or `None` when the stream is
/// exhausted before a complete record is read. Malformed input decodes
/// to an `Error` value rather than aborting.
pub open spec fn decode_spec(s: Seq<char>) -> Option<(RespVal, nat)>
    decreases s.len(), 0int,
    via decode_spec_decreases
{
    match chunk_spec(s) {
        None => None,
        Some((line, used)) => {
            if line.len() == 0 {
                Some((RespVal::Error(msg_unknown()), used))
            } else {
                let c = line[0];
                let body = line.skip(1);
                if c == ':' {
                    match parse_i64_spec(body) {
                        Some(n) => Some((RespVal::Number(n), used)),
                        None => Some((RespVal::Error(msg_bad_number()), used)),
                    }
                } else if c == '-' {
                    Some((RespVal::Error(body), used))
                } else if c == '+' {
                    Some((RespVal::SimpleStr(body), used))
                } else if c == '$' {
                    match parse_i64_spec(body) {
                        None => Some((RespVal::Error(msg_bad_bulk()), used)),
                        Some(n) => {
                            if n == -1 {
                                Some((RespVal::NullString, used))
                            } else {
                                match chunk_spec(rest_of(s, used)) {
                                    None => None,
                                    Some((body_line, used2)) => Some(
                                        (RespVal::BulkStr(body_line), used + used2),
                                    ),
                                }
                            }
                        }
                    }
                } else if c == '*' {
                    match parse_u64_spec(body) {
                        None => Some((RespVal::Error(msg_bad_list()), used)),
                        Some(n) => {
                            match decode_items_spec(rest_of(s, used), n as nat) {
                                None => None,
                                Some((vs, used2)) => Some((RespVal::List(vs), used + used2)),
                            }
                        }
                    }
                } else {
                    Some((RespVal::Error(msg_unknown()), used))
                }
            }
        }
    }
}

#[via_fn]
proof fn decode_spec_decreases(s: Seq<char>) {
    lemma_find_crlf_bounds(s);
}

/// What decoding `n` consecutive records from `s` yields: the values in
/// order and the total characters consumed, or `None` when the stream
/// runs out first.
pub open spec fn decode_items_spec(s: Seq<char>, n: nat) -> Option<(Seq<RespVal>, nat)>
    decreases s.len(), n + 1,
{
    if n == 0 {
        Some((Seq::empty(), 0))
    } else {
        match decode_spec(s) {
            None => None,
            Some((v, used)) => {
                match decode_items_spec(rest_of(s, used), (n - 1) as nat) {
                    None => None,
                    Some((vs, used2)) => Some((seq![v] + vs, used + used2)),
                }
            }
        }
    }
}

/// A decoded record consumes at least one and at most all characters;
/// exhaustion consumes nothing further than the end.
pub proof fn lemma_decode_spec_bounds(s: Seq<char>)
    ensures
        match decode_spec(s) {
            Some((v, used)) => 1 <= used <= s.len(),
            None => true,
        },
    decreases s.len(), 0int,
{
    match chunk_spec(s) {
        None => {}
        Some((line, used)) => {
            lemma_find_crlf_bounds(s);
            if line.len() > 0 && line[0] == '$' {
                match parse_i64_spec(line.skip(1)) {
                    Some(n) => {
                        if n != -1 {
                            lemma_find_crlf_bounds(rest_of(s, used));
                        }
                    }
                    None => {}
                }
            }
            if line.len() > 0 && line[0] == '*' {
                match parse_u64_spec(line.skip(1)) {
                    Some(n) => {
                        lemma_decode_items_bounds(rest_of(s, used), n as nat);
                    }
                    None => {}
                }
            }
        }
    }
}

/// Decoding `n` records consumes at most the whole stream.
pub proof fn lemma_decode_items_bounds(s: Seq<char>, n: nat)
    ensures
        match decode_items_spec(s, n) {
            Some((vs, used)) => used <= s.len() && vs.len() == n,
            None => true,
        },
    decreases s.len(), n + 1,
{
    if n != 0 {
        lemma_decode_spec_bounds(s);
        match decode_spec(s) {
            None => {}
            Some((v, used)) => {
                lemma_decode_items_bounds(rest_of(s, used), (n - 1) as nat);
            }
        }
    }
}

} // verus!

verus! {

/// A character stream with a cursor: decoding consumes characters by
/// advancing the cursor, leaving the remainder for the next record.
pub struct CharStream {
    data: Vec<char>,
    pos: usize,
}

impl CharStream {
    /// The cursor never runs past the end of the text.
    #[verifier::type_invariant]
    spec fn cursor_in_bounds(self) -> bool {
        self.pos <= self.data@.len()
    }

    /// The whole text the stream was built over.
    pub closed spec fn text(self) -> Seq<char> {
        self.data@
    }

    /// How many characters have been consumed.
    pub closed spec fn position(self) -> int {
        self.pos as int
    }

    /// The characters not yet consumed.
    pub open spec fn remaining(self) -> Seq<char> {
        self.text().skip(self.position())
    }

    /// How many characters have been consumed so far.
    pub fn consumed(&self) -> (r: usize)
        ensures
            r as int == self.position(),
    {
        self.pos
    }

    /// A stream over the characters of `text`, nothing consumed yet.
    pub fn new(text: &str) -> (r: Self)
        ensures
            r.text() == text@,
            r.position() == 0,
            r.remaining() == text@,
    {
        let data = crate::serialise::str_chars(text);
        let r = CharStream { data, pos: 0 };
        proof {
            assert(r.remaining() =~= text@);
        }
        r
    }
}

/// The characters `data[from..to]`, in order.
fn copy_range(data: &Vec<char>, from: usize, to: usize) -> (r: Vec<char>)
    requires
        from <= to <= data@.len(),
    ensures
        r@ == data@.subrange(from as int, to as int),
{
    let mut out: Vec<char> = Vec::new();
    let mut i: usize = from;
    while i < to
        invariant
            from <= i <= to <= data@.len(),
            out@ == data@.subrange(from as int, i as int),
        decreases to - i,
    {
        out.push(data[i]);
        proof {
            assert(out@ =~= data@.subrange(from as int, i + 1));
        }
        i = i + 1;
    }
    out
}

/// Read one chunk starting at `pos`, as `chunk_spec` describes: the
/// text up to (and consuming) the first CR LF, or all that remains.
fn read_chunk(data: &Vec<char>, pos: usize) -> (r: (Option<Vec<char>>, usize))
    requires
        pos <= data@.len(),
    ensures
        pos <= r.1 <= data@.len(),
        ({
            let s = data@.skip(pos as int);
            match chunk_spec(s) {
                None => r.0 is None && r.1 == pos,
                Some((line, used)) => r.0 is Some && r.0->0@ == line && r.1 == pos + used && r.1
                    > pos,
            }
        }),
{
    let ghost s = data@.skip(pos as int);
    if pos == data.len() {
        proof {
            assert(s.len() == 0);
        }
        return (None, pos);
    }
    let mut j: usize = pos;
    while j < data.len() - 1
        invariant
            pos <= j <= data@.len(),
            pos < data@.len(),
            s == data@.skip(pos as int),
            forall|k: int| 0 <= k < j - pos ==> !is_crlf_at(s, k),
        decreases data@.len() - j,
    {
        if data[j] == '\r' && data[j + 1] == '\n' {
            proof {
                assert(s[j - pos] == data@[j as int]);
                assert(s[j - pos + 1] == data@[j + 1]);
                assert(is_crlf_at(s, j - pos));
                lemma_find_crlf_first(s, j - pos);
            }
            let line = copy_range(data, pos, j);
            proof {
                assert(line@ =~= s.take(j - pos));
            }
            return (Some(line), j + 2);
        }
        proof {
            assert(s[j - pos] == data@[j as int]);
            assert(forall|k: int| 0 <= k < j + 1 - pos ==> !is_crlf_at(s, k));
        }
        j = j + 1;
    }
    proof {
        lemma_find_crlf_spec(s);
        if find_crlf(s) is Some {
            let i = find_crlf(s)->0;
            assert(is_crlf_at(s, i));
            assert(i + 2 <= s.len());
            assert(i < j - pos);
        }
        assert(find_crlf(s) is None);
    }
    let line = copy_range(data, pos, data.len());
    proof {
        assert(line@ =~= s);
    }
    (Some(line), data.len())
}

/// Decode one record at `pos`, as `decode_spec` describes; the returned
/// position follows the consumed record, or sits at the end of the
/// text when the stream was exhausted mid-record.
fn decode_value(data: &Vec<char>, pos: usize) -> (r: (Option<RespData>, usize))
    requires
        pos <= data@.len(),
    ensures
        pos <= r.1 <= data@.len(),
        ({
            match decode_spec(data@.skip(pos as int)) {
                None => r.0 is None && r.1 == data@.len(),
                Some((v, used)) => r.0 is Some && r.0->0@ == v && r.1 == pos + used,
            }
        }),
    decreases data@.len() - pos, 0int,
{
    let ghost s = data@.skip(pos as int);
    proof {
        lemma_find_crlf_bounds(s);
    }
    let (chunk_opt, pos2) = read_chunk(data, pos);
    match chunk_opt {
        None => (None, pos2),
        Some(line) => {
            let ghost used = (pos2 - pos) as nat;
            if line.len() == 0 {
                (Some(RespData::Error("Unknown symbol or unexpected end of stream".to_owned())), pos2)
            } else {
                let c0 = line[0];
                proof {
                    assert(line@.skip(1) == line@.skip(1));
                }
                if c0 == ':' {
                    match crate::numbers::parse_i64_range(&line, 1) {
                        Some(n) => (Some(RespData::Number(n)), pos2),
                        None => (Some(RespData::Error("Can't parse number!".to_owned())), pos2),
                    }
                } else if c0 == '-' {
                    let tail = copy_range(&line, 1, line.len());
                    proof {
                        assert(tail@ =~= line@.skip(1));
                    }
                    (Some(RespData::Error(crate::serialise::chars_string(tail))), pos2)
                } else if c0 == '+' {
                    let tail = copy_range(&line, 1, line.len());
                    proof {
                        assert(tail@ =~= line@.skip(1));
                    }
                    (Some(RespData::SimpleStr(crate::serialise::chars_string(tail))), pos2)
                } else if c0 == '$' {
                    match crate::numbers::parse_i64_range(&line, 1) {
                        None => (Some(RespData::Error("Can't process bulk string".to_owned())), pos2),
                        Some(n) => {
                            if n == -1 {
                                (Some(RespData::NullString), pos2)
                            } else {
                                proof {
                                    assert(rest_of(s, used) =~= data@.skip(pos2 as int));
                                }
                                let (body_opt, pos3) = read_chunk(data, pos2);
                                match body_opt {
                                    None => (None, pos3),
                                    Some(body) => {
                                        (
                                            Some(
                                                RespData::BulkStr(
                                                    crate::serialise::chars_string(body),
                                                ),
                                            ),
                                            pos3,
                                        )
                                    }
                                }
                            }
                        }
                    }
                } else if c0 == '*' {
                    match crate::numbers::parse_u64_range(&line, 1) {
                        None => (Some(RespData::Error("Can't read list".to_owned())), pos2),
                        Some(n) => {
                            proof {
                                assert(rest_of(s, used) =~= data@.skip(pos2 as int));
                            }
                            let (items_opt, pos3) = decode_list(data, pos2, n);
                            match items_opt {
                                None => (None, pos3),
                                Some(items) => (Some(RespData::List(items)), pos3),
                            }
                        }
                    }
                } else {
                    (
                        Some(
                            RespData::Error(
                                "Unknown symbol or unexpected end of stream".to_owned(),
                            ),
                        ),
                        pos2,
                    )
                }
            }
        }
    }
}

/// Decode `n` consecutive records starting at `pos`, as
/// `decode_items_spec` describes.
fn decode_list(data: &Vec<char>, pos: usize, n: u64) -> (r: (Option<Vec<RespData>>, usize))
    requires
        pos <= data@.len(),
    ensures
        pos <= r.1 <= data@.len(),
        ({
            match decode_items_spec(data@.skip(pos as int), n as nat) {
                None => r.0 is None && r.1 == data@.len(),
                Some((vs, used)) => r.0 is Some && RespData::deep_seq(r.0->0@) == vs && r.1 == pos
                    + used,
            }
        }),
    decreases data@.len() - pos, n + 1,
{
    let mut items: Vec<RespData> = Vec::new();
    let mut cur: usize = pos;
    let mut k: u64 = 0;
    proof {
        RespData::lemma_deep_seq(items@);
        assert(RespData::deep_seq(items@) =~= Seq::<RespVal>::empty());
    }
    while k < n
        invariant
            pos <= cur <= data@.len(),
            k <= n,
            items@.len() == k,
            ({
                match decode_items_spec(data@.skip(pos as int), n as nat) {
                    None => decode_items_spec(data@.skip(cur as int), (n - k) as nat) is None,
                    Some((vs, used)) => {
                        match decode_items_spec(data@.skip(cur as int), (n - k) as nat) {
                            None => false,
                            Some((vs2, used2)) => vs == RespData::deep_seq(items@) + vs2 && used
                                == (cur - pos) + used2,
                        }
                    }
                }
            }),
            decode_items_spec(data@.skip(pos as int), n as nat) is None ==> decode_items_spec(
                data@.skip(cur as int),
                (n - k) as nat,
            ) is None,
        decreases n - k,
    {
        let ghost scur = data@.skip(cur as int);
        proof {
            lemma_decode_spec_bounds(scur);
        }
        let (child_opt, cur2) = decode_value(data, cur);
        match child_opt {
            None => {
                return (None, cur2);
            }
            Some(child) => {
                let ghost prev = items@;
                proof {
                    let used = (decode_spec(scur)->0).1;
                    assert(rest_of(scur, used) =~= data@.skip(cur2 as int));
                    RespData::lemma_deep_seq(prev);
                    RespData::lemma_deep_seq(prev.push(child));
                    assert(RespData::deep_seq(prev.push(child)) =~= RespData::deep_seq(prev)
                        + seq![child.deep()]);
                }
                items.push(child);
                proof {
                    let va = decode_items_spec(data@.skip(cur as int), (n - k) as nat);
                    let vb = decode_items_spec(data@.skip(cur2 as int), (n - k - 1) as nat);
                    let u0 = (decode_spec(scur)->0).1;
                    assert(va == match decode_items_spec(rest_of(scur, u0), ((n - k) as nat - 1) as nat) {
                        None => None::<(Seq<RespVal>, nat)>,
                        Some((vs3, used3)) => Some((seq![child.deep()] + vs3, (u0 + used3) as nat)),
                    });
                    assert(decode_items_spec(rest_of(scur, u0), ((n - k) as nat - 1) as nat) == vb);
                    match va {
                        None => {}
                        Some((vs2, used2)) => {
                            match vb {
                                None => {}
                                Some((vs3, used3)) => {
                                    assert(vs2 =~= seq![child.deep()] + vs3);
                                    assert(items@ == prev.push(child));
                                    assert(RespData::deep_seq(items@) + vs3 =~= RespData::deep_seq(
                                        prev,
                                    ) + vs2);
                                }
                            }
                        }
                    }
                }
                cur = cur2;
                k = k + 1;
            }
        }
    }
    proof {
        assert(decode_items_spec(data@.skip(cur as int), 0) == Some(
            (Seq::<RespVal>::empty(), 0nat),
        ));
        match decode_items_spec(data@.skip(pos as int), n as nat) {
            None => {
                assert(false);
            }
            Some((vs, used)) => {
                assert(vs =~= RespData::deep_seq(items@));
            }
        }
    }
    (Some(items), cur)
}

impl RespData {
    /// Decode exactly one record from the stream, advancing it past the
    /// consumed characters; `None` only when the stream is exhausted
    /// before a complete record is read, after which the stream sits at
    /// its end.
    pub fn from_char_stream(stream: &mut CharStream) -> (r: Option<RespData>)
        ensures
            final(stream).text() == old(stream).text(),
            old(stream).position() <= final(stream).position() <= final(stream).text().len(),
            match decode_spec(old(stream).remaining()) {
                None => r is None && final(stream).remaining().len() == 0,
                Some((v, used)) => r is Some && r->0@ == v && final(stream).position() == old(
                    stream,
                ).position() + used,
            },
    {
        proof {
            use_type_invariant(&*stream);
        }
        let (r, new_pos) = decode_value(&stream.data, stream.pos);
        stream.pos = new_pos;
        r
    }
}

} // verus!

verus! {

/// Text without any carriage return holds no CR LF pair.
proof fn lemma_no_cr_wf(t: Seq<char>)
    requires
        forall|i: int| 0 <= i < t.len() ==> #[trigger] t[i] != '\r',
    ensures
        crate::resp::wf_text(t),
{
}

/// A chunk read from `line + CR LF + rest` is exactly `line`, consuming
/// the line and its terminator.
proof fn lemma_chunk_of_line(line: Seq<char>, rest: Seq<char>)
    requires
        crate::resp::wf_text(line),
    ensures
        chunk_spec(line + crate::serialise::crlf() + rest) == Some(
            (line, (line.len() + 2) as nat),
        ),
{
    let s = line + crate::serialise::crlf() + rest;
    let n = line.len() as int;
    assert(s.len() == line.len() + 2 + rest.len());
    assert(s[n] == '\r');
    assert(s[n + 1] == '\n');
    assert(is_crlf_at(s, n));
    assert forall|j: int| 0 <= j < n implies !is_crlf_at(s, j) by {
        if j + 1 < n {
            assert(s[j] == line[j]);
            assert(s[j + 1] == line[j + 1]);
        } else {
            assert(j + 1 == n);
            assert(s[j + 1] == '\r');
        }
    }
    lemma_find_crlf_first(s, n);
    assert(s.take(n) =~= line);
}

/// Prefixing one non-CR character onto CR-LF-free text keeps it CR-LF-free.
proof fn lemma_wf_prefix(c: char, t: Seq<char>)
    requires
        c != '\r',
        crate::resp::wf_text(t),
    ensures
        crate::resp::wf_text(seq![c] + t),
{
    let line = seq![c] + t;
    assert forall|j: int| 0 <= j && j + 1 < line.len() implies #[trigger] line[j] != '\r'
        || line[j + 1] != '\n' by {
        if j == 0 {
        } else {
            assert(line[j] == t[j - 1]);
            assert(line[j + 1] == t[j]);
        }
    }
}

/// Decoding inverts encoding: one encoded record followed by anything
/// decodes to the original value, consuming exactly the record.
pub proof fn lemma_round_trip(v: RespVal, rest: Seq<char>)
    requires
        crate::resp::wf_val(v),
    ensures
        decode_spec(encode_val(v) + rest) == Some((v, encode_val(v).len() as nat)),
    decreases v, 0int,
{
    let s = encode_val(v) + rest;
    match v {
        RespVal::SimpleStr(t) => {
            let line = seq!['+'] + t;
            lemma_wf_prefix('+', t);
            assert(s =~= line + crate::serialise::crlf() + rest);
            lemma_chunk_of_line(line, rest);
            assert(line[0] == '+');
            assert(line.skip(1) =~= t);
        }
        RespVal::Error(t) => {
            let line = seq!['-'] + t;
            lemma_wf_prefix('-', t);
            assert(s =~= line + crate::serialise::crlf() + rest);
            lemma_chunk_of_line(line, rest);
            assert(line[0] == '-');
            assert(line.skip(1) =~= t);
        }
        RespVal::Number(n) => {
            let line = seq![':'] + crate::numbers::dec_int(n as int);
            crate::numbers::lemma_dec_digits_wf(
                if n < 0 {
                    (-(n as int)) as nat
                } else {
                    n as nat
                },
            );
            assert(forall|i: int|
                0 <= i < line.len() ==> #[trigger] line[i] != '\r') by {
                crate::numbers::lemma_digits_not_crlf(
                    crate::numbers::dec_digits(
                        if n < 0 {
                            (-(n as int)) as nat
                        } else {
                            n as nat
                        },
                    ),
                );
            }
            lemma_no_cr_wf(line);
            assert(s =~= line + crate::serialise::crlf() + rest);
            lemma_chunk_of_line(line, rest);
            assert(line[0] == ':');
            assert(line.skip(1) =~= crate::numbers::dec_int(n as int));
            crate::numbers::lemma_parse_dec_int(n);
        }
        RespVal::NullString => {
            let line = seq!['$', '-', '1'];
            lemma_no_cr_wf(line);
            assert(s =~= line + crate::serialise::crlf() + rest);
            lemma_chunk_of_line(line, rest);
            assert(line[0] == '$');
            assert(line.skip(1) =~= seq!['-', '1']);
            assert(crate::numbers::parse_i64_spec(seq!['-', '1']) == Some(-1i64)) by {
                let ds = seq!['-', '1'].skip(1);
                assert(ds =~= seq!['1']);
                assert(crate::numbers::all_digits(ds));
                assert(ds.drop_last() =~= Seq::<char>::empty());
                assert(crate::numbers::digits_val(Seq::<char>::empty()) == 0);
                assert(ds.last() == '1');
                assert(crate::numbers::digit_val('1') == 1);
                assert(crate::numbers::digits_val(ds) == crate::numbers::digits_val(
                    ds.drop_last(),
                ) * 10 + crate::numbers::digit_val(ds.last()));
                assert(crate::numbers::digits_val(ds) == 1);
            }
        }
        RespVal::BulkStr(t) => {
            let len_text = crate::numbers::dec_digits(t.len());
            let line = seq!['$'] + len_text;
            crate::numbers::lemma_dec_digits_wf(t.len());
            assert(forall|i: int|
                0 <= i < line.len() ==> #[trigger] line[i] != '\r') by {
                crate::numbers::lemma_digits_not_crlf(len_text);
            }
            lemma_no_cr_wf(line);
            let tail = t + crate::serialise::crlf() + rest;
            assert(s =~= line + crate::serialise::crlf() + tail);
            lemma_chunk_of_line(line, tail);
            assert(line[0] == '$');
            assert(line.skip(1) =~= len_text);
            let len_i = t.len() as i64;
            assert(crate::numbers::dec_int(len_i as int) == len_text);
            crate::numbers::lemma_parse_dec_int(len_i);
            assert(crate::numbers::parse_i64_spec(len_text) == Some(len_i));
            assert(len_i != -1);
            let used1 = (line.len() + 2) as nat;
            assert(rest_of(s, used1) =~= tail);
            lemma_chunk_of_line(t, rest);
            assert(chunk_spec(tail) == Some((t, (t.len() + 2) as nat)));
            assert(encode_val(v).len() == line.len() + 2 + t.len() + 2);
        }
        RespVal::List(items) => {
            let count_text = crate::numbers::dec_digits(items.len());
            let line = seq!['*'] + count_text;
            crate::numbers::lemma_dec_digits_wf(items.len());
            assert(forall|i: int|
                0 <= i < line.len() ==> #[trigger] line[i] != '\r') by {
                crate::numbers::lemma_digits_not_crlf(count_text);
            }
            lemma_no_cr_wf(line);
            let tail = encode_items(items) + rest;
            assert(s =~= line + crate::serialise::crlf() + tail);
            lemma_chunk_of_line(line, tail);
            assert(line[0] == '*');
            assert(line.skip(1) =~= count_text);
            let count = items.len() as u64;
            crate::numbers::lemma_parse_dec_u64(count);
            assert(crate::numbers::parse_u64_spec(count_text) == Some(count));
            let used1 = (line.len() + 2) as nat;
            assert(rest_of(s, used1) =~= tail);
            lemma_round_trip_items(items, rest);
            assert(count as nat == items.len());
            assert(encode_val(v).len() == line.len() + 2 + encode_items(items).len());
        }
    }
}

/// Decoding inverts encoding for a run of records: the concatenated
/// encodings of `items` decode back to `items`, in order.
pub proof fn lemma_round_trip_items(items: Seq<RespVal>, rest: Seq<char>)
    requires
        crate::resp::wf_items(items),
    ensures
        decode_items_spec(encode_items(items) + rest, items.len()) == Some(
            (items, encode_items(items).len() as nat),
        ),
    decreases items, 1int,
{
    if items.len() == 0 {
        assert(encode_items(items) + rest =~= rest);
        assert(encode_items(items).len() == 0);
    } else {
        let v0 = items[0];
        let tl = items.drop_first();
        let s = encode_items(items) + rest;
        assert(encode_items(items) == encode_val(v0) + encode_items(tl));
        assert(s =~= encode_val(v0) + (encode_items(tl) + rest));
        lemma_round_trip(v0, encode_items(tl) + rest);
        let used0 = encode_val(v0).len() as nat;
        assert(decode_spec(s) == Some((v0, used0)));
        assert(rest_of(s, used0) =~= encode_items(tl) + rest);
        lemma_round_trip_items(tl, rest);
        assert(seq![v0] + tl =~= items);
        assert((items.len() - 1) as nat == tl.len());
    }
}

} // verus!
