//! Decimal text: rendering integers to digit sequences and parsing them
//! back, with the laws tying the two directions together.

use vstd::prelude::*;

verus! {

/// A decimal digit character.
pub open spec fn is_digit(c: char) -> bool {
    '0' <= c && c <= '9'
}

/// The numeric value of one digit character.
pub open spec fn digit_val(c: char) -> int {
    c as int - '0' as int
}

/// Every character of `s` is a decimal digit.
pub open spec fn all_digits(s: Seq<char>) -> bool {
    forall|i: int| 0 <= i < s.len() ==> is_digit(#[trigger] s[i])
}

/// The value of a digit string, most significant digit first.
pub open spec fn digits_val(s: Seq<char>) -> int
    decreases s.len(),
{
    if s.len() == 0 {
        0
    } else {
        digits_val(s.drop_last()) * 10 + digit_val(s.last())
    }
}

/// The digit character for a value below ten.
pub open spec fn digit_char(n: int) -> char {
    if n == 0 {
        '0'
    } else if n == 1 {
        '1'
    } else if n == 2 {
        '2'
    } else if n == 3 {
        '3'
    } else if n == 4 {
        '4'
    } else if n == 5 {
        '5'
    } else if n == 6 {
        '6'
    } else if n == 7 {
        '7'
    } else if n == 8 {
        '8'
    } else {
        '9'
    }
}

/// The canonical decimal rendering of a non-negative integer: no sign,
/// no leading zero except for zero itself.
pub open spec fn dec_digits(n: nat) -> Seq<char>
    decreases n,
{
    if n < 10 {
        seq![digit_char(n as int)]
    } else {
        dec_digits(n / 10).push(digit_char((n % 10) as int))
    }
}

/// The canonical decimal rendering of a signed integer.
pub open spec fn dec_int(n: int) -> Seq<char> {
    if n < 0 {
        seq!['-'] + dec_digits((-n) as nat)
    } else {
        dec_digits(n as nat)
    }
}

/// What parsing a signed base-10 64-bit integer from text yields: an
/// optional single `+` or `-` sign, then one or more digits, and a value
/// within the `i64` range; anything else is rejected.
pub open spec fn parse_i64_spec(s: Seq<char>) -> Option<i64> {
    if s.len() == 0 {
        None
    } else {
        let neg = s[0] == '-';
        let ds = if s[0] == '-' || s[0] == '+' {
            s.skip(1)
        } else {
            s
        };
        if ds.len() == 0 || !all_digits(ds) {
            None
        } else {
            let m = digits_val(ds);
            if neg {
                if -m >= i64::MIN {
                    Some((-m) as i64)
                } else {
                    None
                }
            } else {
                if m <= i64::MAX {
                    Some(m as i64)
                } else {
                    None
                }
            }
        }
    }
}

/// What parsing an unsigned base-10 64-bit integer yields: an optional
/// `+` sign, then one or more digits, and a value within the `u64` range.
pub open spec fn parse_u64_spec(s: Seq<char>) -> Option<u64> {
    if s.len() == 0 {
        None
    } else {
        let ds = if s[0] == '+' {
            s.skip(1)
        } else {
            s
        };
        if ds.len() == 0 || !all_digits(ds) {
            None
        } else {
            let m = digits_val(ds);
            if m <= u64::MAX {
                Some(m as u64)
            } else {
                None
            }
        }
    }
}

/// A digit string has a non-negative value.
pub proof fn lemma_digits_val_nonneg(s: Seq<char>)
    requires
        all_digits(s),
    ensures
        digits_val(s) >= 0,
    decreases s.len(),
{
    if s.len() > 0 {
        lemma_digits_val_nonneg(s.drop_last());
    }
}

/// Appending one digit multiplies the value by ten and adds the digit.
pub proof fn lemma_digits_val_push(s: Seq<char>, c: char)
    ensures
        digits_val(s.push(c)) == digits_val(s) * 10 + digit_val(c),
{
    assert(s.push(c).drop_last() =~= s);
    assert(s.push(c).last() == c);
}

/// The value of a longer digit prefix is at least the value of a shorter
/// one.
pub proof fn lemma_digits_val_take_le(s: Seq<char>, i: int, j: int)
    requires
        all_digits(s),
        0 <= i <= j <= s.len(),
    ensures
        digits_val(s.take(i)) <= digits_val(s.take(j)),
    decreases j - i,
{
    if i < j {
        lemma_digits_val_take_le(s, i, j - 1);
        assert(s.take(j).drop_last() =~= s.take(j - 1));
        assert(forall|k: int| 0 <= k < s.take(j).len() ==> s.take(j)[k] == s[k]);
        assert(is_digit(s[j - 1]));
        lemma_digits_val_nonneg(s.take(j - 1));
        assert(digits_val(s.take(j)) == digits_val(s.take(j - 1)) * 10 + digit_val(s[j - 1]));
    } else {
        assert(s.take(i) =~= s.take(j));
    }
}

/// The whole digit string is worth at least any of its prefixes.
pub proof fn lemma_digits_val_prefix_le(s: Seq<char>, i: int)
    requires
        all_digits(s),
        0 <= i <= s.len(),
    ensures
        digits_val(s.take(i)) <= digits_val(s),
{
    lemma_digits_val_take_le(s, i, s.len() as int);
    assert(s.take(s.len() as int) =~= s);
}

/// The canonical rendering consists of digits only, and is never empty.
pub proof fn lemma_dec_digits_wf(n: nat)
    ensures
        dec_digits(n).len() >= 1,
        all_digits(dec_digits(n)),
    decreases n,
{
    if n >= 10 {
        lemma_dec_digits_wf(n / 10);
        let s = dec_digits(n / 10);
        let c = digit_char((n % 10) as int);
        assert(is_digit(c));
        assert(forall|i: int|
            0 <= i < s.push(c).len() ==> is_digit(#[trigger] s.push(c)[i]));
    }
}

/// Parsing the canonical rendering of `n` recovers `n`.
pub proof fn lemma_digits_val_dec_digits(n: nat)
    ensures
        digits_val(dec_digits(n)) == n,
    decreases n,
{
    if n < 10 {
        assert(dec_digits(n) =~= seq![digit_char(n as int)]);
        assert(dec_digits(n).drop_last() =~= Seq::<char>::empty());
        assert(digits_val(Seq::<char>::empty()) == 0);
        assert(dec_digits(n).last() == digit_char(n as int));
        assert(digit_val(digit_char(n as int)) == n);
        assert(digits_val(dec_digits(n)) == n);
    } else {
        lemma_digits_val_dec_digits(n / 10);
        lemma_digits_val_push(dec_digits(n / 10), digit_char((n % 10) as int));
        assert(digits_val(dec_digits(n / 10)) == n / 10);
        assert(digit_val(digit_char((n % 10) as int)) == n % 10);
        assert(n == (n / 10) * 10 + n % 10) by {
            vstd::arithmetic::div_mod::lemma_fundamental_div_mod(n as int, 10);
        }
        assert(digits_val(dec_digits(n)) == n);
    }
}

/// The signed rendering of any `i64` parses back to the same value.
pub proof fn lemma_parse_dec_int(n: i64)
    ensures
        parse_i64_spec(dec_int(n as int)) == Some(n),
{
    if n >= 0 {
        lemma_dec_digits_wf(n as nat);
        lemma_digits_val_dec_digits(n as nat);
        let s = dec_int(n as int);
        assert(s == dec_digits(n as nat));
        assert(is_digit(s[0]));
        assert(s[0] != '-' && s[0] != '+');
    } else {
        let m = (-(n as int)) as nat;
        lemma_dec_digits_wf(m);
        lemma_digits_val_dec_digits(m);
        let s = dec_int(n as int);
        assert(s[0] == '-');
        assert(s.skip(1) =~= dec_digits(m));
    }
}

/// The unsigned rendering of any `u64` parses back to the same value.
pub proof fn lemma_parse_dec_u64(n: u64)
    ensures
        parse_u64_spec(dec_digits(n as nat)) == Some(n),
{
    lemma_dec_digits_wf(n as nat);
    lemma_digits_val_dec_digits(n as nat);
    let s = dec_digits(n as nat);
    assert(is_digit(s[0]));
    assert(s[0] != '+');
}

/// Digits are never carriage return or line feed.
pub proof fn lemma_digits_not_crlf(s: Seq<char>)
    requires
        all_digits(s),
    ensures
        forall|i: int| 0 <= i < s.len() ==> #[trigger] s[i] != '\r' && s[i] != '\n',
{
}

/// The exec digit for a value below ten.
fn digit_char_exec(n: u64) -> (c: char)
    requires
        n < 10,
    ensures
        c == digit_char(n as int),
{
    match n {
        0 => '0',
        1 => '1',
        2 => '2',
        3 => '3',
        4 => '4',
        5 => '5',
        6 => '6',
        7 => '7',
        8 => '8',
        _ => '9',
    }
}

/// Append the canonical decimal rendering of `n` to `out`.
pub fn push_u64_digits(n: u64, out: &mut Vec<char>)
    ensures
        final(out)@ == old(out)@ + dec_digits(n as nat),
    decreases n,
{
    if n < 10 {
        out.push(digit_char_exec(n));
        proof {
            assert(out@ =~= old(out)@ + dec_digits(n as nat));
        }
    } else {
        push_u64_digits(n / 10, out);
        out.push(digit_char_exec(n % 10));
        proof {
            assert(out@ =~= old(out)@ + dec_digits(n as nat));
        }
    }
}

/// Append the signed decimal rendering of `n` to `out`.
pub fn push_i64(n: i64, out: &mut Vec<char>)
    ensures
        final(out)@ == old(out)@ + dec_int(n as int),
{
    if n >= 0 {
        push_u64_digits(n as u64, out);
    } else {
        out.push('-');
        let mag: u64 = ((-(n + 1)) as u64) + 1;
        assert(mag == -(n as int));
        push_u64_digits(mag, out);
        proof {
            assert(out@ =~= old(out)@ + dec_int(n as int));
        }
    }
}

/// The code point of a character, available to proofs as `c as int`.
pub fn char_code(c: char) -> (r: u32)
    ensures
        r as int == c as int,
{
    c as u32
}

/// Parse the digit run `s[from..]` as an unsigned magnitude, rejecting
/// empty runs, non-digits, and values beyond `u64`.
fn parse_magnitude(s: &Vec<char>, from: usize) -> (r: Option<u64>)
    requires
        from <= s@.len(),
    ensures
        ({
            let ds = s@.skip(from as int);
            match r {
                Some(m) => ds.len() > 0 && all_digits(ds) && m == digits_val(ds),
                None => ds.len() == 0 || !all_digits(ds) || digits_val(ds) > u64::MAX,
            }
        }),
{
    let ghost ds = s@.skip(from as int);
    if from == s.len() {
        return None;
    }
    let mut acc: u64 = 0;
    let mut i: usize = from;
    while i < s.len()
        invariant
            from <= i <= s@.len(),
            ds == s@.skip(from as int),
            all_digits(ds.take(i - from)),
            acc == digits_val(ds.take(i - from)),
        decreases s@.len() - i,
    {
        let c = s[i];
        let cv = char_code(c);
        proof {
            assert(ds.take(i + 1 - from).drop_last() =~= ds.take(i - from));
            assert(ds.take(i + 1 - from).last() == s@[i as int]);
        }
        if !(cv >= 48 && cv <= 57) {
            proof {
                assert(!is_digit(s@[i as int]));
                assert(ds[i - from] == s@[i as int]);
            }
            return None;
        }
        let d: u64 = (cv - 48) as u64;
        proof {
            assert(is_digit(s@[i as int]));
            assert(d == digit_val(s@[i as int]));
        }
        if acc > (u64::MAX - d) / 10 {
            proof {
                let upto = ds.take(i + 1 - from);
                assert(all_digits(upto));
                assert(digits_val(upto) == acc * 10 + d > u64::MAX);
                if all_digits(ds) {
                    lemma_digits_val_prefix_le(ds, i + 1 - from);
                    assert(digits_val(ds) > u64::MAX);
                }
            }
            return None;
        }
        acc = acc * 10 + d;
        i = i + 1;
    }
    proof {
        assert(ds.take(i - from) =~= ds);
    }
    Some(acc)
}

/// Parse `s[from..]` as a signed base-10 64-bit integer, as
/// `parse_i64_spec` describes.
pub fn parse_i64_range(s: &Vec<char>, from: usize) -> (r: Option<i64>)
    requires
        from <= s@.len(),
    ensures
        r == parse_i64_spec(s@.skip(from as int)),
{
    let ghost whole = s@.skip(from as int);
    if from == s.len() {
        return None;
    }
    let first = s[from];
    let (neg, digits_from) = if first == '-' {
        (true, from + 1)
    } else if first == '+' {
        (false, from + 1)
    } else {
        (false, from)
    };
    proof {
        if first == '-' || first == '+' {
            assert(whole.skip(1) =~= s@.skip(digits_from as int));
        }
    }
    let ghost ds = s@.skip(digits_from as int);
    match parse_magnitude(s, digits_from) {
        None => {
            proof {
                if ds.len() > 0 && all_digits(ds) {
                    lemma_digits_val_nonneg(ds);
                }
            }
            None
        }
        Some(m) => {
            if neg {
                if m <= 9223372036854775807u64 {
                    Some(-(m as i64))
                } else if m == 9223372036854775808u64 {
                    Some(i64::MIN)
                } else {
                    None
                }
            } else {
                if m <= 9223372036854775807u64 {
                    Some(m as i64)
                } else {
                    None
                }
            }
        }
    }
}

/// Parse `s[from..]` as an unsigned base-10 64-bit integer, as
/// `parse_u64_spec` describes.
pub fn parse_u64_range(s: &Vec<char>, from: usize) -> (r: Option<u64>)
    requires
        from <= s@.len(),
    ensures
        r == parse_u64_spec(s@.skip(from as int)),
{
    let ghost whole = s@.skip(from as int);
    if from == s.len() {
        return None;
    }
    let first = s[from];
    let digits_from = if first == '+' {
        from + 1
    } else {
        from
    };
    proof {
        if first == '+' {
            assert(whole.skip(1) =~= s@.skip(digits_from as int));
        }
    }
    parse_magnitude(s, digits_from)
}

} // verus!
