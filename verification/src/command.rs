//! The command grammar: turning one decoded array value into a typed
//! command, or a parse error that names the problem.

use vstd::prelude::*;

use crate::numbers::{char_code, parse_i64_spec};
use crate::resp::{RespData, RespVal};

verus! {

/// A typed operation, built once per request and immutable.
#[derive(Debug)]
pub enum Command {
    Ping,
    Echo(RespData),
    Get(String),
    SetKey(String, RespData),
    Incr(String, Option<i64>),
    Decr(String, Option<i64>),
    Select(String),
    Lpop(String),
    Lpush(String, RespData),
    Rpop(String),
    Rpush(String, RespData),
    Llen(String),
    Lrange(String, i64, i64),
    Keys,
    Info,
    FlushAll,
    Dump(String),
}

/// The mathematical shape of a `Command`.
pub enum CommandVal {
    Ping,
    Echo(RespVal),
    Get(Seq<char>),
    SetKey(Seq<char>, RespVal),
    Incr(Seq<char>, Option<i64>),
    Decr(Seq<char>, Option<i64>),
    Select(Seq<char>),
    Lpop(Seq<char>),
    Lpush(Seq<char>, RespVal),
    Rpop(Seq<char>),
    Rpush(Seq<char>, RespVal),
    Llen(Seq<char>),
    Lrange(Seq<char>, i64, i64),
    Keys,
    Info,
    FlushAll,
    Dump(Seq<char>),
}

impl View for Command {
    type V = CommandVal;

    open spec fn view(&self) -> CommandVal {
        match self {
            Command::Ping => CommandVal::Ping,
            Command::Echo(v) => CommandVal::Echo(v@),
            Command::Get(k) => CommandVal::Get(k@),
            Command::SetKey(k, v) => CommandVal::SetKey(k@, v@),
            Command::Incr(k, by) => CommandVal::Incr(k@, *by),
            Command::Decr(k, by) => CommandVal::Decr(k@, *by),
            Command::Select(k) => CommandVal::Select(k@),
            Command::Lpop(k) => CommandVal::Lpop(k@),
            Command::Lpush(k, v) => CommandVal::Lpush(k@, v@),
            Command::Rpop(k) => CommandVal::Rpop(k@),
            Command::Rpush(k, v) => CommandVal::Rpush(k@, v@),
            Command::Llen(k) => CommandVal::Llen(k@),
            Command::Lrange(k, a, b) => CommandVal::Lrange(k@, *a, *b),
            Command::Keys => CommandVal::Keys,
            Command::Info => CommandVal::Info,
            Command::FlushAll => CommandVal::FlushAll,
            Command::Dump(k) => CommandVal::Dump(k@),
        }
    }
}

/// The view of an optional value.
pub open spec fn opt_val(d: Option<RespData>) -> Option<RespVal> {
    match d {
        Some(v) => Some(v@),
        None => None,
    }
}

/// The `i`-th element of the argument list, if present.
pub open spec fn arg(elems: Seq<RespVal>, i: int) -> Option<RespVal> {
    if 0 <= i < elems.len() {
        Some(elems[i])
    } else {
        None
    }
}

/// A string argument is accepted only from a simple or bulk string.
pub open spec fn string_arg_spec(v: Option<RespVal>) -> Option<Seq<char>> {
    match v {
        Some(RespVal::BulkStr(s)) => Some(s),
        Some(RespVal::SimpleStr(s)) => Some(s),
        _ => None,
    }
}

/// A numeric argument is accepted from an integer directly, or from a
/// string argument that parses as a signed base-10 64-bit integer.
pub open spec fn numerical_arg_spec(v: Option<RespVal>) -> Option<i64> {
    match v {
        Some(RespVal::Number(i)) => Some(i),
        _ => match string_arg_spec(v) {
            Some(s) => parse_i64_spec(s),
            None => None,
        },
    }
}

/// Character `a` equals lowercase character `b`, ignoring ASCII case.
pub open spec fn char_eq_ci(a: char, b: char) -> bool {
    a == b || ('A' <= a && a <= 'Z' && a as int + 32 == b as int)
}

/// The name `s` matches the lowercase keyword `kw`, ignoring ASCII case.
pub open spec fn matches_keyword(s: Seq<char>, kw: Seq<char>) -> bool {
    s.len() == kw.len() && forall|i: int| 0 <= i < s.len() ==> char_eq_ci(#[trigger] s[i], kw[i])
}

/// What parsing a decoded value into a command yields: the input must
/// be an array whose first element is a string naming the command,
/// case-insensitively; the remaining elements are its arguments, with
/// the arity and coercion each command demands; otherwise the error
/// text naming the problem.
pub open spec fn from_resp_spec(v: RespVal) -> Result<CommandVal, Seq<char>> {
    match v {
        RespVal::List(elems) => match string_arg_spec(arg(elems, 0)) {
            None => Err("invalid command format"@),
            Some(name) => named_command_spec(name, elems),
        },
        _ => Err("invalid command format"@),
    }
}

/// The command selected by `name` over the argument list `elems`.
pub open spec fn named_command_spec(name: Seq<char>, elems: Seq<RespVal>) -> Result<
    CommandVal,
    Seq<char>,
> {
    if matches_keyword(name, "ping"@) {
        Ok(CommandVal::Ping)
    } else if matches_keyword(name, "echo"@) {
        match arg(elems, 1) {
            Some(v) => Ok(CommandVal::Echo(v)),
            None => Err("too few args"@),
        }
    } else if matches_keyword(name, "get"@) {
        match string_arg_spec(arg(elems, 1)) {
            Some(k) => Ok(CommandVal::Get(k)),
            None => Err("too few args"@),
        }
    } else if matches_keyword(name, "set"@) {
        match string_arg_spec(arg(elems, 1)) {
            None => Err("nope"@),
            Some(k) => match arg(elems, 2) {
                Some(v) => Ok(CommandVal::SetKey(k, v)),
                None => Err("Not enough args"@),
            },
        }
    } else if matches_keyword(name, "flushall"@) {
        Ok(CommandVal::FlushAll)
    } else if matches_keyword(name, "decr"@) {
        match string_arg_spec(arg(elems, 1)) {
            Some(k) => Ok(CommandVal::Decr(k, None)),
            None => Err("Not enough args"@),
        }
    } else if matches_keyword(name, "decrby"@) {
        match (string_arg_spec(arg(elems, 1)), numerical_arg_spec(arg(elems, 2))) {
            (Some(k), Some(n)) => Ok(CommandVal::Decr(k, Some(n))),
            _ => Err("Not enough args"@),
        }
    } else if matches_keyword(name, "incr"@) {
        match string_arg_spec(arg(elems, 1)) {
            Some(k) => Ok(CommandVal::Incr(k, None)),
            None => Err("Not enough args"@),
        }
    } else if matches_keyword(name, "incrby"@) {
        match (string_arg_spec(arg(elems, 1)), numerical_arg_spec(arg(elems, 2))) {
            (Some(k), Some(n)) => Ok(CommandVal::Incr(k, Some(n))),
            _ => Err("Not enough args"@),
        }
    } else if matches_keyword(name, "lpush"@) {
        match (string_arg_spec(arg(elems, 1)), arg(elems, 2)) {
            (Some(k), Some(v)) => Ok(CommandVal::Lpush(k, v)),
            _ => Err("Not enough args"@),
        }
    } else if matches_keyword(name, "rpush"@) {
        match (string_arg_spec(arg(elems, 1)), arg(elems, 2)) {
            (Some(k), Some(v)) => Ok(CommandVal::Rpush(k, v)),
            _ => Err("Not enough args"@),
        }
    } else if matches_keyword(name, "lpop"@) {
        match string_arg_spec(arg(elems, 1)) {
            Some(k) => Ok(CommandVal::Lpop(k)),
            None => Err("Not enough args"@),
        }
    } else if matches_keyword(name, "rpop"@) {
        match string_arg_spec(arg(elems, 1)) {
            Some(k) => Ok(CommandVal::Rpop(k)),
            None => Err("Not enough args"@),
        }
    } else if matches_keyword(name, "llen"@) {
        match string_arg_spec(arg(elems, 1)) {
            Some(k) => Ok(CommandVal::Llen(k)),
            None => Err("Not enough args"@),
        }
    } else if matches_keyword(name, "lrange"@) {
        match (
            string_arg_spec(arg(elems, 1)),
            numerical_arg_spec(arg(elems, 2)),
            numerical_arg_spec(arg(elems, 3)),
        ) {
            (Some(k), Some(a), Some(b)) => Ok(CommandVal::Lrange(k, a, b)),
            _ => Err("Not enough args"@),
        }
    } else if matches_keyword(name, "dump"@) {
        match string_arg_spec(arg(elems, 1)) {
            Some(k) => Ok(CommandVal::Dump(k)),
            None => Err("Not enough args"@),
        }
    } else if matches_keyword(name, "keys"@) {
        Ok(CommandVal::Keys)
    } else if matches_keyword(name, "info"@) {
        Ok(CommandVal::Info)
    } else if matches_keyword(name, "select"@) {
        match string_arg_spec(arg(elems, 1)) {
            Some(k) => Ok(CommandVal::Select(k)),
            None => Err("too few args"@),
        }
    } else {
        Err("unknown command"@)
    }
}

/// `a` equals lowercase `b` up to ASCII case, decided on code points.
fn char_eq_ci_exec(a: char, b: char) -> (r: bool)
    ensures
        r == char_eq_ci(a, b),
{
    let ac = char_code(a);
    let bc = char_code(b);
    ac == bc || (ac >= 65 && ac <= 90 && ac + 32 == bc)
}

/// Whether `name` matches the lowercase keyword `kw`, ignoring ASCII
/// case.
fn keyword_matches(name: &Vec<char>, kw: &str) -> (r: bool)
    ensures
        r == matches_keyword(name@, kw@),
{
    let kwc = crate::serialise::str_chars(kw);
    if name.len() != kwc.len() {
        return false;
    }
    let mut i: usize = 0;
    while i < name.len()
        invariant
            name@.len() == kwc@.len(),
            kwc@ == kw@,
            0 <= i <= name@.len(),
            forall|j: int| 0 <= j < i ==> char_eq_ci(#[trigger] name@[j], kw@[j]),
        decreases name@.len() - i,
    {
        if !char_eq_ci_exec(name[i], kwc[i]) {
            return false;
        }
        i = i + 1;
    }
    true
}

impl Command {
    /// A string argument: present only for a simple or bulk string.
    pub fn string_arg(data: Option<RespData>) -> (r: Option<String>)
        ensures
            match r {
                Some(s) => string_arg_spec(opt_val(data)) == Some(s@),
                None => string_arg_spec(opt_val(data)) is None,
            },
    {
        match data {
            Some(RespData::BulkStr(s)) => Some(s),
            Some(RespData::SimpleStr(s)) => Some(s),
            _ => None,
        }
    }

    /// A numeric argument: an integer, or a string that parses as one.
    pub fn numerical_arg(data: Option<RespData>) -> (r: Option<i64>)
        ensures
            r == numerical_arg_spec(opt_val(data)),
    {
        match data {
            Some(RespData::Number(i)) => Some(i),
            other => match Self::string_arg(other) {
                Some(s) => {
                    let cs = crate::serialise::str_chars(s.as_str());
                    proof {
                        assert(cs@.skip(0) =~= cs@);
                    }
                    crate::numbers::parse_i64_range(&cs, 0)
                }
                None => None,
            },
        }
    }

    /// Parse a decoded value into a command, as `from_resp_spec`
    /// describes; parsing never touches any database.
    pub fn from_resp(input: RespData) -> (r: Result<Command, String>)
        ensures
            match r {
                Ok(c) => from_resp_spec(input@) == Ok::<CommandVal, Seq<char>>(c@),
                Err(m) => from_resp_spec(input@) == Err::<CommandVal, Seq<char>>(m@),
            },
    {
        let ghost iv = input@;
        match input {
            RespData::List(elems) => {
                proof {
                    RespData::lemma_deep_seq(elems@);
                }
                let name = match Self::string_arg(elem_at(&elems, 0)) {
                    Some(n) => n,
                    None => {
                        return Err("invalid command format".to_owned());
                    }
                };
                let nc = crate::serialise::str_chars(name.as_str());
                if keyword_matches(&nc, "ping") {
                    Ok(Command::Ping)
                } else if keyword_matches(&nc, "echo") {
                    match elem_at(&elems, 1) {
                        Some(v) => Ok(Command::Echo(v)),
                        None => Err("too few args".to_owned()),
                    }
                } else if keyword_matches(&nc, "get") {
                    match Self::string_arg(elem_at(&elems, 1)) {
                        Some(k) => Ok(Command::Get(k)),
                        None => Err("too few args".to_owned()),
                    }
                } else if keyword_matches(&nc, "set") {
                    match Self::string_arg(elem_at(&elems, 1)) {
                        None => Err("nope".to_owned()),
                        Some(k) => match elem_at(&elems, 2) {
                            Some(v) => Ok(Command::SetKey(k, v)),
                            None => Err("Not enough args".to_owned()),
                        },
                    }
                } else if keyword_matches(&nc, "flushall") {
                    Ok(Command::FlushAll)
                } else if keyword_matches(&nc, "decr") {
                    match Self::string_arg(elem_at(&elems, 1)) {
                        Some(k) => Ok(Command::Decr(k, None)),
                        None => Err("Not enough args".to_owned()),
                    }
                } else if keyword_matches(&nc, "decrby") {
                    match (
                        Self::string_arg(elem_at(&elems, 1)),
                        Self::numerical_arg(elem_at(&elems, 2)),
                    ) {
                        (Some(k), Some(n)) => Ok(Command::Decr(k, Some(n))),
                        _ => Err("Not enough args".to_owned()),
                    }
                } else if keyword_matches(&nc, "incr") {
                    match Self::string_arg(elem_at(&elems, 1)) {
                        Some(k) => Ok(Command::Incr(k, None)),
                        None => Err("Not enough args".to_owned()),
                    }
                } else if keyword_matches(&nc, "incrby") {
                    match (
                        Self::string_arg(elem_at(&elems, 1)),
                        Self::numerical_arg(elem_at(&elems, 2)),
                    ) {
                        (Some(k), Some(n)) => Ok(Command::Incr(k, Some(n))),
                        _ => Err("Not enough args".to_owned()),
                    }
                } else if keyword_matches(&nc, "lpush") {
                    match (Self::string_arg(elem_at(&elems, 1)), elem_at(&elems, 2)) {
                        (Some(k), Some(v)) => Ok(Command::Lpush(k, v)),
                        _ => Err("Not enough args".to_owned()),
                    }
                } else if keyword_matches(&nc, "rpush") {
                    match (Self::string_arg(elem_at(&elems, 1)), elem_at(&elems, 2)) {
                        (Some(k), Some(v)) => Ok(Command::Rpush(k, v)),
                        _ => Err("Not enough args".to_owned()),
                    }
                } else if keyword_matches(&nc, "lpop") {
                    match Self::string_arg(elem_at(&elems, 1)) {
                        Some(k) => Ok(Command::Lpop(k)),
                        None => Err("Not enough args".to_owned()),
                    }
                } else if keyword_matches(&nc, "rpop") {
                    match Self::string_arg(elem_at(&elems, 1)) {
                        Some(k) => Ok(Command::Rpop(k)),
                        None => Err("Not enough args".to_owned()),
                    }
                } else if keyword_matches(&nc, "llen") {
                    match Self::string_arg(elem_at(&elems, 1)) {
                        Some(k) => Ok(Command::Llen(k)),
                        None => Err("Not enough args".to_owned()),
                    }
                } else if keyword_matches(&nc, "lrange") {
                    match (
                        Self::string_arg(elem_at(&elems, 1)),
                        Self::numerical_arg(elem_at(&elems, 2)),
                        Self::numerical_arg(elem_at(&elems, 3)),
                    ) {
                        (Some(k), Some(a), Some(b)) => Ok(Command::Lrange(k, a, b)),
                        _ => Err("Not enough args".to_owned()),
                    }
                } else if keyword_matches(&nc, "dump") {
                    match Self::string_arg(elem_at(&elems, 1)) {
                        Some(k) => Ok(Command::Dump(k)),
                        None => Err("Not enough args".to_owned()),
                    }
                } else if keyword_matches(&nc, "keys") {
                    Ok(Command::Keys)
                } else if keyword_matches(&nc, "info") {
                    Ok(Command::Info)
                } else if keyword_matches(&nc, "select") {
                    match Self::string_arg(elem_at(&elems, 1)) {
                        Some(k) => Ok(Command::Select(k)),
                        None => Err("too few args".to_owned()),
                    }
                } else {
                    Err("unknown command".to_owned())
                }
            }
            _ => Err("invalid command format".to_owned()),
        }
    }
}

/// The `i`-th element of the list, copied out, if present.
fn elem_at(elems: &Vec<RespData>, i: usize) -> (r: Option<RespData>)
    ensures
        opt_val(r) == arg(RespData::deep_seq(elems@), i as int),
{
    proof {
        RespData::lemma_deep_seq(elems@);
    }
    if i < elems.len() {
        Some(elems[i].clone())
    } else {
        None
    }
}

} // verus!
