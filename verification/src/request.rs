//! The per-connection request cycle: parse one decoded record, answer
//! locally what never touches a database, and route the rest.

use vstd::prelude::*;

use crate::command::{from_resp_spec, Command, CommandVal};
use crate::resp::{RespData, RespVal};
use crate::router::{default_db_id, route_spec, Core};

verus! {

/// What a session does with one parsed request: answer it in place,
/// or forward a command to the named database.
pub enum Step {
    Reply(RespData),
    Route(String, Command),
}

/// The mathematical shape of a `Step`.
pub enum StepVal {
    Reply(RespVal),
    Route(Seq<char>, CommandVal),
}

impl View for Step {
    type V = StepVal;

    open spec fn view(&self) -> StepVal {
        match self {
            Step::Reply(r) => StepVal::Reply(r@),
            Step::Route(id, c) => StepVal::Route(id@, c@),
        }
    }
}

/// The view of an optional database identifier.
pub open spec fn opt_id(d: Option<String>) -> Option<Seq<char>> {
    match d {
        Some(s) => Some(s@),
        None => None,
    }
}

/// What one request decides: a parse fault is answered as an error;
/// PING, ECHO and INFO are answered without touching any database;
/// SELECT switches the session's database and answers OK; every other
/// command is forwarded to the selected database, or to the default
/// one when none was ever selected.
pub open spec fn session_step_spec(db: Option<Seq<char>>, v: RespVal) -> (
    Option<Seq<char>>,
    StepVal,
) {
    match from_resp_spec(v) {
        Err(m) => (db, StepVal::Reply(RespVal::Error(m))),
        Ok(CommandVal::Ping) => (db, StepVal::Reply(RespVal::SimpleStr("PONG"@))),
        Ok(CommandVal::Echo(d)) => (db, StepVal::Reply(d)),
        Ok(CommandVal::Info) => (db, StepVal::Reply(RespVal::SimpleStr("info"@))),
        Ok(CommandVal::Select(new_db)) => (Some(new_db), StepVal::Reply(crate::resp::ok_val())),
        Ok(c) => (
            db,
            StepVal::Route(
                match db {
                    Some(d) => d,
                    None => default_db_id(),
                },
                c,
            ),
        ),
    }
}

/// What one request does to the whole store: the reply, the store
/// after it, and the session's database id after it.
pub open spec fn handle_spec(
    db: Option<Seq<char>>,
    dbs: Seq<(Seq<char>, Seq<(Seq<char>, RespVal)>)>,
    v: RespVal,
) -> (Option<Seq<char>>, Seq<(Seq<char>, Seq<(Seq<char>, RespVal)>)>, RespVal) {
    let stepped = session_step_spec(db, v);
    match stepped.1 {
        StepVal::Reply(resp) => (stepped.0, dbs, resp),
        StepVal::Route(id, c) => {
            let routed = route_spec(dbs, id, c);
            (stepped.0, routed.0, routed.1)
        }
    }
}

/// One request's handling.
pub struct Request {}

impl Request {
    /// Decide one request, as `session_step_spec` describes; nothing is
    /// read or written here.
    pub fn step(database_id: Option<String>, input: RespData) -> (r: (Option<String>, Step))
        ensures
            opt_id(r.0) == session_step_spec(opt_id(database_id), input@).0,
            r.1@ == session_step_spec(opt_id(database_id), input@).1,
    {
        match Command::from_resp(input) {
            Ok(Command::Ping) => (
                database_id,
                Step::Reply(RespData::SimpleStr("PONG".to_owned())),
            ),
            Ok(Command::Echo(data)) => (database_id, Step::Reply(data)),
            Ok(Command::Info) => (database_id, Step::Reply(RespData::SimpleStr("info".to_owned()))),
            Ok(Command::Select(new_db)) => (Some(new_db), Step::Reply(RespData::ok())),
            Ok(cmd) => {
                let id = match &database_id {
                    Some(d) => d.clone(),
                    None => "default".to_owned(),
                };
                (database_id, Step::Route(id, cmd))
            }
            Err(reason) => (database_id, Step::Reply(RespData::Error(reason))),
        }
    }

    /// Handle one request against the store, as `handle_spec`
    /// describes: decide it, route what must be routed, and answer.
    pub fn handle(database_id: Option<String>, core: &mut Core, input: RespData) -> (r: (
        Option<String>,
        RespData,
    ))
        requires
            old(core).wf(),
        ensures
            final(core).wf(),
            opt_id(r.0) == handle_spec(opt_id(database_id), old(core)@, input@).0,
            final(core)@ == handle_spec(opt_id(database_id), old(core)@, input@).1,
            r.1@ == handle_spec(opt_id(database_id), old(core)@, input@).2,
    {
        let (db2, step) = Self::step(database_id, input);
        match step {
            Step::Reply(resp) => (db2, resp),
            Step::Route(id, cmd) => {
                let resp = core.route(&id, cmd);
                (db2, resp)
            }
        }
    }
}

} // verus!
