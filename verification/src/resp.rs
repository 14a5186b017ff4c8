//! The value model: the tagged union carried on the wire and stored in a
//! database, together with its mathematical view.

use vstd::prelude::*;

verus! {

/// A protocol value. `List` may nest arbitrarily; equality is structural
/// and variant-sensitive.
#[derive(Debug, PartialEq)]
pub enum RespData {
    /// An error, carried as raw text.
    Error(String),
    /// A signed 64-bit integer.
    Number(i64),
    /// Unquoted text, written without a length prefix.
    SimpleStr(String),
    /// Text written with a length prefix.
    BulkStr(String),
    /// An ordered sequence of values, possibly heterogeneous.
    List(Vec<RespData>),
    /// The distinguished absent-bulk-string marker.
    NullString,
}

/// The mathematical shape of a `RespData`: strings become `Seq<char>`,
/// lists become `Seq<RespVal>`.
pub enum RespVal {
    Error(Seq<char>),
    Number(i64),
    SimpleStr(Seq<char>),
    BulkStr(Seq<char>),
    List(Seq<RespVal>),
    NullString,
}

impl RespData {
    /// The value a `RespData` stands for, with all strings and vectors
    /// replaced by their views.
    pub open spec fn deep(self) -> RespVal
        decreases self,
    {
        match self {
            RespData::Error(s) => RespVal::Error(s@),
            RespData::Number(n) => RespVal::Number(n),
            RespData::SimpleStr(s) => RespVal::SimpleStr(s@),
            RespData::BulkStr(s) => RespVal::BulkStr(s@),
            RespData::List(items) => RespVal::List(Self::deep_seq(items@)),
            RespData::NullString => RespVal::NullString,
        }
    }

    /// The views of a sequence of values, elementwise.
    pub open spec fn deep_seq(s: Seq<RespData>) -> Seq<RespVal>
        decreases s,
    {
        if s.len() == 0 {
            Seq::empty()
        } else {
            seq![s[0].deep()] + Self::deep_seq(s.drop_first())
        }
    }

    /// `deep_seq` maps `deep` over the sequence, elementwise.
    pub proof fn lemma_deep_seq(s: Seq<RespData>)
        ensures
            Self::deep_seq(s).len() == s.len(),
            forall|i: int| 0 <= i < s.len() ==> Self::deep_seq(s)[i] == s[i].deep(),
        decreases s.len(),
    {
        if s.len() > 0 {
            Self::lemma_deep_seq(s.drop_first());
        }
    }
}

/// The marker value a successful mutation answers with.
pub open spec fn ok_val() -> RespVal {
    RespVal::SimpleStr("OK"@)
}

/// The distinguished error value for a command applied to a stored
/// value of the wrong variant.
pub open spec fn wrong_type_val() -> RespVal {
    RespVal::Error("WRONGTYPE Operation against a key holding the wrong kind of value"@)
}

/// Text that can ride inside one CR-LF-terminated record: it holds no
/// CR LF pair of its own.
pub open spec fn wf_text(t: Seq<char>) -> bool {
    forall|j: int| 0 <= j && j + 1 < t.len() ==> #[trigger] t[j] != '\r' || t[j + 1] != '\n'
}

/// A value the wire grammar can carry faithfully: its texts hold no
/// CR LF pair, its bulk lengths fit a signed 64-bit count, and its list
/// counts fit an unsigned one.
pub open spec fn wf_val(v: RespVal) -> bool
    decreases v,
{
    match v {
        RespVal::Error(t) => wf_text(t),
        RespVal::Number(_) => true,
        RespVal::SimpleStr(t) => wf_text(t),
        RespVal::BulkStr(t) => wf_text(t) && t.len() <= i64::MAX,
        RespVal::NullString => true,
        RespVal::List(items) => items.len() <= u64::MAX && wf_items(items),
    }
}

/// Every element of the sequence is a well-formed value.
pub open spec fn wf_items(items: Seq<RespVal>) -> bool
    decreases items,
{
    if items.len() == 0 {
        true
    } else {
        wf_val(items[0]) && wf_items(items.drop_first())
    }
}

impl View for RespData {
    type V = RespVal;

    open spec fn view(&self) -> RespVal {
        self.deep()
    }
}

impl Clone for RespData {
    /// A clone stands for the same mathematical value as the original.
    fn clone(&self) -> (r: Self)
        ensures
            r@ == self@,
        decreases *self,
    {
        match self {
            RespData::Error(s) => RespData::Error(s.clone()),
            RespData::Number(n) => RespData::Number(*n),
            RespData::SimpleStr(s) => RespData::SimpleStr(s.clone()),
            RespData::BulkStr(s) => RespData::BulkStr(s.clone()),
            RespData::List(items) => {
                let mut out: Vec<RespData> = Vec::new();
                let mut i: usize = 0;
                while i < items.len()
                    invariant
                        *self == RespData::List(*items),
                        i <= items.len(),
                        out@.len() == i,
                        forall|j: int| 0 <= j < i ==> out@[j]@ == items@[j]@,
                    decreases items.len() - i,
                {
                    proof {
                        assert(decreases_to!(*self => self->List_0));
                        assert(decreases_to!(self->List_0 => self->List_0[i as int]));
                    }
                    out.push(items[i].clone());
                    i = i + 1;
                }
                proof {
                    RespData::lemma_deep_seq(out@);
                    RespData::lemma_deep_seq(items@);
                    assert(RespData::deep_seq(out@) =~= RespData::deep_seq(items@));
                }
                RespData::List(out)
            }
            RespData::NullString => RespData::NullString,
        }
    }
}

impl RespData {
    /// The marker a successful mutation answers with.
    pub fn ok() -> (r: Self)
        ensures
            r@ == ok_val(),
    {
        RespData::SimpleStr("OK".to_owned())
    }

    /// The marker for an absent value.
    pub fn nil() -> (r: Self)
        ensures
            r@ == RespVal::NullString,
    {
        RespData::NullString
    }

    /// The distinguished error answered when a command meets a stored
    /// value of the wrong variant.
    pub fn wrong_type() -> (r: Self)
        ensures
            r@ == wrong_type_val(),
    {
        RespData::Error(
            "WRONGTYPE Operation against a key holding the wrong kind of value".to_owned(),
        )
    }
}

} // verus!
