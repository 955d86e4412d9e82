//! The interface that a transport offers: what callers send, what they get
//! back, and the checks in between.

use vstd::prelude::*;
use vstd::string::StrSliceExecFns;
use vstd::string::StringExecFns;
use crate::action::{action_name, code_of, first_slot, from_action, is_action, to_action};
use crate::columns::{is_set, put, slot, ColumnsMap, Pairs, Value, ValueView};
use crate::entries::{
    all_mutable, frozen, got, guarded, is_mutable, listed, log_views, recent_plan, MUTABLE,
};
use crate::error::{Error, Invalid};
use crate::id::{new_id, Id, RECENT_SECS};
use crate::log::{
    all_valid, blank, first_invalid, lemma_projection_valid, projection, Log, LogView,
};
use crate::statement::{Statement, StatementView};
use crate::store::{accepts, cells, holds, place, returned, settable, written, MemoryStore};
use crate::text::{chars_of, contains, split, trim_range, trimmed};

verus! {

/// The names that a comma-separated list holds: none where there is no
/// list or only white space; else the pieces between the commas, each
/// without the white space around it.
pub open spec fn field_list(text: Option<Seq<char>>) -> Seq<Seq<char>> {
    match text {
        None => Seq::empty(),
        Some(s) => if trimmed(s).len() == 0 {
            Seq::empty()
        } else {
            split(trimmed(s), ',').map_values(|piece: Seq<char>| trimmed(piece))
        },
    }
}

/// The field names of a request, given as one comma-separated string.
/// White space around the list and around each name is dropped. An empty
/// list stands for every field.
pub fn get_fields(fields: Option<String>) -> (names: Vec<String>)
    ensures
        names.deep_view() == field_list(
            match fields {
                Some(s) => Some(s@),
                None => None,
            },
        ),
{
    let mut names: Vec<String> = Vec::new();
    let text = match fields {
        Some(text) => text,
        None => {
            assert(names.deep_view() =~= Seq::empty());
            return names;
        },
    };
    let chars = chars_of(text.as_str());
    let (from, to) = trim_range(&chars, 0, chars.len());
    assert(chars@.subrange(0, chars@.len() as int) =~= chars@);
    if from == to {
        assert(names.deep_view() =~= Seq::empty());
        return names;
    }
    let ghost all = chars@.subrange(from as int, to as int);
    let ghost mut done: Seq<Seq<char>> = Seq::empty();
    let mut start: usize = from;
    let mut i: usize = from;
    assert(chars@.subrange(from as int, from as int) =~= Seq::empty());
    assert(seq![Seq::<char>::empty()] =~= done.push(Seq::empty()));
    while i < to
        invariant
            from <= start <= i <= to <= chars@.len(),
            chars@ == text@,
            all == chars@.subrange(from as int, to as int),
            split(chars@.subrange(from as int, i as int), ',') == done.push(
                chars@.subrange(start as int, i as int),
            ),
            names.deep_view() == done.map_values(|piece: Seq<char>| trimmed(piece)),
        decreases to - i,
    {
        let ghost upto = chars@.subrange(from as int, i + 1);
        let ghost piece = chars@.subrange(start as int, i as int);
        proof {
            assert(upto.drop_last() =~= chars@.subrange(from as int, i as int));
            assert(upto.last() == chars@[i as int]);
            assert(done.push(piece).drop_last() =~= done);
        }
        if chars[i] == ',' {
            let (a, b) = trim_range(&chars, start, i);
            let ghost before = names.deep_view();
            names.push(text.as_str().substring_char(a, b).to_owned());
            proof {
                assert(names.deep_view() =~= before.push(trimmed(piece)));
                assert(before.push(trimmed(piece)) =~= done.push(piece).map_values(
                    |piece: Seq<char>| trimmed(piece),
                ));
                done = done.push(piece);
                assert(chars@.subrange(i + 1, i + 1) =~= Seq::empty());
            }
            start = i + 1;
        } else {
            proof {
                assert(piece.push(chars@[i as int]) =~= chars@.subrange(start as int, i + 1));
            }
        }
        i += 1;
    }
    let (a, b) = trim_range(&chars, start, to);
    let ghost before = names.deep_view();
    let ghost piece = chars@.subrange(start as int, to as int);
    names.push(text.as_str().substring_char(a, b).to_owned());
    proof {
        assert(names.deep_view() =~= before.push(trimmed(piece)));
        assert(before.push(trimmed(piece)) =~= done.push(piece).map_values(
            |piece: Seq<char>| trimmed(piece),
        ));
    }
    names
}

/// The name and the version of the service.
#[derive(Debug)]
pub struct AppVersion {
    pub name: String,
    pub version: String,
}

impl AppVersion {
    /// The version record of the service called `name` at `version`.
    pub fn new(name: &str, version: &str) -> (v: AppVersion)
        ensures
            v.name@ == name@,
            v.version@ == version@,
    {
        AppVersion { name: name.to_owned(), version: version.to_owned() }
    }
}

/// Health figures of the row store's driver.
#[derive(Clone, Copy, Debug, PartialEq, Eq)]
pub struct AppInfo {
    pub scylla_latency_avg_ms: u64,
    pub scylla_latency_p99_ms: u64,
    pub scylla_latency_p90_ms: u64,
    pub scylla_errors_num: u64,
    pub scylla_queries_num: u64,
    pub scylla_errors_iter_num: u64,
    pub scylla_queries_iter_num: u64,
    pub scylla_retries_num: u64,
}

/// `value`, or zero where there is none.
pub open spec fn or_zero(value: Option<u64>) -> u64 {
    match value {
        Some(v) => v,
        None => 0,
    }
}

impl AppInfo {
    /// The health record of the given figures. A latency that the driver
    /// could not give counts as zero.
    pub fn new(
        latency_avg_ms: Option<u64>,
        latency_p99_ms: Option<u64>,
        latency_p90_ms: Option<u64>,
        errors_num: u64,
        queries_num: u64,
        errors_iter_num: u64,
        queries_iter_num: u64,
        retries_num: u64,
    ) -> (info: AppInfo)
        ensures
            info == (AppInfo {
                scylla_latency_avg_ms: or_zero(latency_avg_ms),
                scylla_latency_p99_ms: or_zero(latency_p99_ms),
                scylla_latency_p90_ms: or_zero(latency_p90_ms),
                scylla_errors_num: errors_num,
                scylla_queries_num: queries_num,
                scylla_errors_iter_num: errors_iter_num,
                scylla_queries_iter_num: queries_iter_num,
                scylla_retries_num: retries_num,
            }),
    {
        AppInfo {
            scylla_latency_avg_ms: latency_avg_ms.unwrap_or(0),
            scylla_latency_p99_ms: latency_p99_ms.unwrap_or(0),
            scylla_latency_p90_ms: latency_p90_ms.unwrap_or(0),
            scylla_errors_num: errors_num,
            scylla_queries_num: queries_num,
            scylla_errors_iter_num: errors_iter_num,
            scylla_queries_iter_num: queries_iter_num,
            scylla_retries_num: retries_num,
        }
    }
}

/// The most action filters that one listing of recent entries may carry.
pub const MAX_ACTIONS: usize = 10;

/// An entry as callers see it. A field that was not fetched is absent,
/// whatever the entry holds in it; the action and the status are always
/// there.
#[derive(Debug)]
pub struct LogOutput {
    pub uid: Id,
    pub id: Id,
    /// The name of the action.
    pub action: String,
    pub status: i8,
    pub gid: Option<Id>,
    pub ip: Option<String>,
    pub payload: Option<Vec<u8>>,
    pub tokens: Option<u32>,
    /// Absent also where the entry records no error.
    pub error: Option<String>,
}

/// What a [`LogOutput`] holds.
pub struct LogOutputView {
    pub uid: Seq<u8>,
    pub id: Seq<u8>,
    pub action: Seq<char>,
    pub status: i8,
    pub gid: Option<Seq<u8>>,
    pub ip: Option<Seq<char>>,
    pub payload: Option<Seq<u8>>,
    pub tokens: Option<u32>,
    pub error: Option<Seq<char>>,
}

impl View for LogOutput {
    type V = LogOutputView;

    open spec fn view(&self) -> LogOutputView {
        LogOutputView {
            uid: self.uid@,
            id: self.id@,
            action: self.action@,
            status: self.status,
            gid: match self.gid {
                Some(v) => Some(v@),
                None => None,
            },
            ip: match self.ip {
                Some(v) => Some(v@),
                None => None,
            },
            payload: match self.payload {
                Some(v) => Some(v@),
                None => None,
            },
            tokens: self.tokens,
            error: match self.error {
                Some(v) => Some(v@),
                None => None,
            },
        }
    }
}

/// A token count as an unsigned number: a negative one wraps around.
pub open spec fn unsigned(tokens: i32) -> u32 {
    if tokens >= 0 {
        tokens as u32
    } else {
        (tokens + 0x1_0000_0000) as u32
    }
}

/// How callers see the entry `log`.
pub open spec fn output_of(log: LogView) -> LogOutputView {
    LogOutputView {
        uid: log.uid,
        id: log.id,
        action: action_name(log.action as int),
        status: log.status,
        gid: if log.fields.contains("gid"@) {
            Some(log.gid)
        } else {
            None
        },
        ip: if log.fields.contains("ip"@) {
            Some(log.ip)
        } else {
            None
        },
        payload: if log.fields.contains("payload"@) {
            Some(log.payload)
        } else {
            None
        },
        tokens: if log.fields.contains("tokens"@) {
            Some(unsigned(log.tokens))
        } else {
            None
        },
        error: if log.fields.contains("error"@) && log.error.len() > 0 {
            Some(log.error)
        } else {
            None
        },
    }
}

/// The views of `outputs`.
pub open spec fn output_views(outputs: Seq<LogOutput>) -> Seq<LogOutputView> {
    outputs.map_values(|o: LogOutput| o@)
}

impl LogOutput {
    /// The entry as callers see it: the name of its action, and of the
    /// other fields those that were fetched.
    pub fn from(val: Log) -> (out: LogOutput)
        ensures
            out@ == output_of(val@),
    {
        LogOutput::of(&val)
    }

    /// As [`LogOutput::from`], of a borrowed entry.
    pub fn of(val: &Log) -> (out: LogOutput)
        ensures
            out@ == output_of(val@),
    {
        let tokens = if val.tokens >= 0 {
            val.tokens as u32
        } else {
            (val.tokens as i64 + 0x1_0000_0000) as u32
        };
        LogOutput {
            uid: val.uid,
            id: val.id,
            action: from_action(val.action),
            status: val.status,
            gid: if contains(&val._fields, "gid") {
                Some(val.gid)
            } else {
                None
            },
            ip: if contains(&val._fields, "ip") {
                Some(val.ip.clone())
            } else {
                None
            },
            payload: if contains(&val._fields, "payload") {
                Some(val.payload.clone())
            } else {
                None
            },
            tokens: if contains(&val._fields, "tokens") {
                Some(tokens)
            } else {
                None
            },
            error: if contains(&val._fields, "error") && val.error.as_str().unicode_len() > 0 {
                Some(val.error.clone())
            } else {
                None
            },
        }
    }

    /// Each entry as callers see it.
    pub fn from_all(logs: &Vec<Log>) -> (outputs: Vec<LogOutput>)
        ensures
            output_views(outputs@) == log_views(logs@).map_values(|l: LogView| output_of(l)),
    {
        let ghost all = log_views(logs@).map_values(|l: LogView| output_of(l));
        let mut outputs: Vec<LogOutput> = Vec::with_capacity(logs.len());
        let mut i: usize = 0;
        while i < logs.len()
            invariant
                i <= logs.len(),
                all == log_views(logs@).map_values(|l: LogView| output_of(l)),
                output_views(outputs@) == all.take(i as int),
            decreases logs.len() - i,
        {
            let ghost shown = output_views(outputs@);
            outputs.push(LogOutput::of(&logs[i]));
            assert(output_views(outputs@) =~= shown.push(output_of(logs@[i as int]@)));
            assert(shown.push(output_of(logs@[i as int]@)) =~= all.take(i + 1));
            i += 1;
        }
        assert(all.take(logs@.len() as int) =~= all);
        outputs
    }
}

/// What a caller sends to read one entry.
#[derive(Debug)]
pub struct QueryLog {
    pub uid: Id,
    pub id: Id,
    /// The fields wanted, separated by commas; all where absent.
    pub fields: Option<String>,
}

/// What a caller sends to create an entry.
#[derive(Debug)]
pub struct CreateLogInput {
    pub uid: Id,
    pub gid: Id,
    /// The name of the action.
    pub action: String,
    /// Must be -1, 0 or 1. A new entry is pending whatever is sent.
    pub status: i8,
    pub ip: String,
    pub payload: Vec<u8>,
    /// Must not be negative.
    pub tokens: i32,
}

/// What a caller sends to record the outcome of an entry.
#[derive(Debug)]
pub struct UpdateLogInput {
    pub uid: Id,
    pub id: Id,
    /// The outcome: 1 for success, -1 for failure.
    pub status: i8,
    pub payload: Option<Vec<u8>>,
    /// Must not be negative.
    pub tokens: Option<i32>,
    pub error: Option<String>,
}

/// What a caller sends to list the recent entries of an owner.
#[derive(Debug)]
pub struct ListRecentlyInput {
    pub uid: Id,
    /// Names of the actions wanted, at most ten; all actions where empty.
    pub actions: Vec<String>,
    /// The fields wanted; all where absent or empty.
    pub fields: Option<Vec<String>>,
}

/// The columns that creating an entry writes: the action, the pending
/// status, and what the caller supplied.
pub open spec fn created(
    code: i8,
    gid: Seq<u8>,
    ip: Seq<char>,
    payload: Seq<u8>,
    tokens: i32,
) -> Pairs {
    seq![
        ("action"@, ValueView::TinyInt(code)),
        ("status"@, ValueView::TinyInt(0)),
        ("gid"@, ValueView::Blob(gid)),
        ("ip"@, ValueView::Text(ip)),
        ("payload"@, ValueView::Blob(payload)),
        ("tokens"@, ValueView::Int(tokens)),
    ]
}

/// `cols` with `name` set to `value` where there is one.
pub open spec fn put_some(cols: Pairs, name: Seq<char>, value: Option<ValueView>) -> Pairs {
    match value {
        Some(v) => put(cols, name, v),
        None => cols,
    }
}

/// The columns that recording an outcome writes: the status, and the
/// payload, the tokens and the error where the caller supplied them.
pub open spec fn outcome(
    status: i8,
    payload: Option<Seq<u8>>,
    tokens: Option<i32>,
    error: Option<Seq<char>>,
) -> Pairs {
    put_some(
        put_some(
            put_some(
                seq![("status"@, ValueView::TinyInt(status))],
                "payload"@,
                match payload {
                    Some(v) => Some(ValueView::Blob(v)),
                    None => None,
                },
            ),
            "tokens"@,
            match tokens {
                Some(v) => Some(ValueView::Int(v)),
                None => None,
            },
        ),
        "error"@,
        match error {
            Some(v) => Some(ValueView::Text(v)),
            None => None,
        },
    )
}

/// `i` is the place of the first name in `names` that is no action.
pub open spec fn first_unknown(names: Seq<Seq<char>>, i: int) -> bool {
    &&& 0 <= i < names.len()
    &&& !is_action(names[i])
    &&& forall|j: int| 0 <= j < i ==> is_action(#[trigger] names[j])
}

/// Every name in `names` is an action.
pub open spec fn all_actions(names: Seq<Seq<char>>) -> bool {
    forall|i: int| 0 <= i < names.len() ==> is_action(#[trigger] names[i])
}

/// The codes of `names`.
pub open spec fn codes_of(names: Seq<Seq<char>>) -> Seq<i8> {
    names.map_values(|name: Seq<char>| code_of(name) as i8)
}

impl CreateLogInput {
    /// The input keeps the rules: the status is -1, 0 or 1 and the tokens
    /// are not negative.
    pub open spec fn valid(&self) -> bool {
        -1 <= self.status <= 1 && self.tokens >= 0
    }

    /// Checks the input against the rules, the status first.
    pub fn validate(&self) -> (r: Result<(), Error>)
        ensures
            r is Ok <==> self.valid(),
            !(-1 <= self.status <= 1) ==> r == Err::<(), Error>(
                Error::Validation(Invalid::Status(self.status)),
            ),
            -1 <= self.status <= 1 && self.tokens < 0 ==> r == Err::<(), Error>(
                Error::Validation(Invalid::Tokens(self.tokens)),
            ),
    {
        if self.status < -1 || self.status > 1 {
            return Err(Error::Validation(Invalid::Status(self.status)));
        }
        if self.tokens < 0 {
            return Err(Error::Validation(Invalid::Tokens(self.tokens)));
        }
        Ok(())
    }

    /// The columns that creating the entry writes, with `code` for the
    /// action.
    pub fn columns(&self, code: i8) -> (cols: ColumnsMap)
        ensures
            cols@ == created(code, self.gid@, self.ip@, self.payload@, self.tokens),
    {
        let mut cols = ColumnsMap::with_capacity(6);
        proof {
            reveal_strlit("action");
            reveal_strlit("status");
            reveal_strlit("gid");
            reveal_strlit("ip");
            reveal_strlit("payload");
            reveal_strlit("tokens");
            assert("action"@[0] != "status"@[0]);
            assert("action"@[0] != "tokens"@[0]);
            assert("status"@[0] != "tokens"@[0]);
        }
        let ghost c0 = cols@;
        cols.set("action", Value::TinyInt(code));
        let ghost c1 = cols@;
        cols.set("status", Value::TinyInt(0));
        let ghost c2 = cols@;
        cols.set("gid", Value::Blob(self.gid.to_vec()));
        let ghost c3 = cols@;
        cols.set("ip", Value::Text(self.ip.clone()));
        let ghost c4 = cols@;
        cols.set("payload", Value::Blob(self.payload.clone()));
        let ghost c5 = cols@;
        cols.set("tokens", Value::Int(self.tokens));
        proof {
            assert(c1 =~= c0.push(("action"@, ValueView::TinyInt(code))));
            assert(c1[0].0 == "action"@);
            assert(!is_set(c1, "status"@));
            assert(c2 =~= c1.push(("status"@, ValueView::TinyInt(0))));
            assert(c2[0].0 == "action"@ && c2[1].0 == "status"@);
            assert(!is_set(c2, "gid"@));
            assert(c3 =~= c2.push(("gid"@, ValueView::Blob(self.gid@))));
            assert(c3[0].0 == "action"@ && c3[1].0 == "status"@ && c3[2].0 == "gid"@);
            assert(!is_set(c3, "ip"@));
            assert(c4 =~= c3.push(("ip"@, ValueView::Text(self.ip@))));
            assert(c4[0].0 == "action"@ && c4[1].0 == "status"@ && c4[2].0 == "gid"@ && c4[3].0
                == "ip"@);
            assert(!is_set(c4, "payload"@));
            assert(c5 =~= c4.push(("payload"@, ValueView::Blob(self.payload@))));
            assert(c5[0].0 == "action"@ && c5[1].0 == "status"@ && c5[2].0 == "gid"@ && c5[3].0
                == "ip"@ && c5[4].0 == "payload"@);
            assert(!is_set(c5, "tokens"@));
            assert(cols@ =~= c5.push(("tokens"@, ValueView::Int(self.tokens))));
            assert(cols@ =~= created(code, self.gid@, self.ip@, self.payload@, self.tokens));
        }
        cols
    }
}

impl UpdateLogInput {
    /// The input keeps the rules: the tokens, where given, are not
    /// negative, and the status is an outcome.
    pub open spec fn valid(&self) -> bool {
        (self.tokens matches Some(t) ==> t >= 0) && (self.status == 1 || self.status == -1)
    }

    /// Checks the input against the rules, the tokens first.
    pub fn validate(&self) -> (r: Result<(), Error>)
        ensures
            r is Ok <==> self.valid(),
            (self.tokens matches Some(t) && t < 0) ==> r == Err::<(), Error>(
                Error::Validation(Invalid::Tokens(self.tokens->0)),
            ),
            !(self.tokens matches Some(t) && t < 0) && self.status != 1 && self.status != -1 ==> r
                == Err::<(), Error>(Error::Validation(Invalid::Status(self.status))),
    {
        match self.tokens {
            Some(t) => {
                if t < 0 {
                    return Err(Error::Validation(Invalid::Tokens(t)));
                }
            },
            None => {},
        }
        if self.status != -1 && self.status != 1 {
            return Err(Error::Validation(Invalid::Status(self.status)));
        }
        Ok(())
    }

    /// The columns that recording the outcome writes.
    pub fn columns(&self) -> (cols: ColumnsMap)
        ensures
            cols@ == outcome(
                self.status,
                match self.payload {
                    Some(v) => Some(v@),
                    None => None,
                },
                self.tokens,
                match self.error {
                    Some(v) => Some(v@),
                    None => None,
                },
            ),
    {
        let mut cols = ColumnsMap::with_capacity(3);
        cols.set("status", Value::TinyInt(self.status));
        assert(cols@ =~= seq![("status"@, ValueView::TinyInt(self.status))]);
        match &self.payload {
            Some(v) => {
                cols.set("payload", Value::Blob(v.clone()));
            },
            None => {},
        }
        match self.tokens {
            Some(v) => {
                cols.set("tokens", Value::Int(v));
            },
            None => {},
        }
        match &self.error {
            Some(v) => {
                cols.set("error", Value::Text(v.clone()));
            },
            None => {},
        }
        cols
    }
}

/// The codes of the action names of a filter. A name that is no action is
/// refused.
pub fn resolve_actions(names: &Vec<String>) -> (r: Result<Vec<i8>, Error>)
    ensures
        match r {
            Ok(codes) => all_actions(names.deep_view()) && codes@ == codes_of(names.deep_view()),
            Err(e) => {
                &&& e matches Error::Validation(Invalid::UnknownAction(name))
                &&& exists|i: int|
                    first_unknown(names.deep_view(), i) && name@ == names.deep_view()[i]
            },
        },
{
    let mut codes: Vec<i8> = Vec::with_capacity(names.len());
    let mut i: usize = 0;
    while i < names.len()
        invariant
            i <= names.len(),
            forall|j: int| 0 <= j < i ==> is_action(#[trigger] names.deep_view()[j]),
            codes@ == codes_of(names.deep_view()).take(i as int),
        decreases names.len() - i,
    {
        match to_action(names[i].as_str()) {
            Some(code) => {
                codes.push(code);
                assert(codes@ =~= codes_of(names.deep_view()).take(i + 1));
            },
            None => {
                assert(first_unknown(names.deep_view(), i as int));
                return Err(Error::Validation(Invalid::UnknownAction(names[i].clone())));
            },
        }
        i += 1;
    }
    assert(codes_of(names.deep_view()).take(names@.len() as int) =~= codes_of(names.deep_view()));
    Ok(codes)
}

/// The entry that creating makes: of this owner and identifier, with the
/// action `code`, pending, and nothing fetched.
pub open spec fn new_entry(uid: Seq<u8>, id: Seq<u8>, code: i8) -> LogView {
    LogView { action: code, ..blank(uid, id) }
}

/// Plans the creation of an entry with the identifier `id`: checks the
/// input, resolves the action, and gives the entry and the statement that
/// writes its row.
pub fn create_statement(input: &CreateLogInput, id: Id) -> (r: Result<(Log, Statement), Error>)
    ensures
        !(-1 <= input.status <= 1) ==> r == Err::<(Log, Statement), Error>(
            Error::Validation(Invalid::Status(input.status)),
        ),
        -1 <= input.status <= 1 && input.tokens < 0 ==> r == Err::<(Log, Statement), Error>(
            Error::Validation(Invalid::Tokens(input.tokens)),
        ),
        input.valid() && !is_action(input.action@) ==> (r matches Err(Error::InvalidAction(name))
            && name@ == input.action@),
        input.valid() && is_action(input.action@) ==> (r matches Ok((doc, st)) && doc@ == new_entry(
            input.uid@,
            id@,
            code_of(input.action@) as i8,
        ) && st@ == (StatementView::Update {
            cols: created(
                code_of(input.action@) as i8,
                input.gid@,
                input.ip@,
                input.payload@,
                input.tokens,
            ),
            uid: input.uid@,
            id: id@,
        })),
{
    match input.validate() {
        Ok(()) => {},
        Err(e) => {
            return Err(e);
        },
    }
    let code = match to_action(input.action.as_str()) {
        Some(code) => code,
        None => {
            return Err(Error::InvalidAction(input.action.clone()));
        },
    };
    let mut doc = Log::with_pk(input.uid, id);
    doc.action = code;
    let cols = input.columns(code);
    Ok((doc, Statement::Update { cols, uid: input.uid, id }))
}

impl QueryLog {
    /// The field names that the caller asks for.
    pub open spec fn requested(&self) -> Seq<Seq<char>> {
        field_list(
            match self.fields {
                Some(s) => Some(s@),
                None => None,
            },
        )
    }
}

impl ListRecentlyInput {
    /// The field names that the caller asks for.
    pub open spec fn requested(&self) -> Seq<Seq<char>> {
        match self.fields {
            Some(f) => f.deep_view(),
            None => Seq::empty(),
        }
    }
}

/// Reads one entry from `db`, with the fields that the caller names.
pub fn get(db: &MemoryStore, input: QueryLog) -> (r: Result<LogOutput, Error>)
    ensures
        match r {
            Ok(out) => {
                &&& all_valid(input.requested())
                &&& holds(db@, input.uid@, input.id@)
                &&& out@ == output_of(
                    got(
                        blank(input.uid@, input.id@),
                        projection(input.requested(), false),
                        cells(
                            db@[place(db@, input.uid@, input.id@)],
                            projection(input.requested(), false),
                        ),
                    ),
                )
            },
            Err(e) => if all_valid(input.requested()) {
                !holds(db@, input.uid@, input.id@) && e == Error::NotFound
            } else {
                &&& e matches Error::InvalidField(name)
                &&& exists|i: int|
                    first_invalid(input.requested(), i) && name@ == input.requested()[i]
            },
        },
{
    let mut doc = Log::with_pk(input.uid, input.id);
    match doc.get_one(db, get_fields(input.fields)) {
        Ok(()) => Ok(LogOutput::from(doc)),
        Err(e) => Err(e),
    }
}

/// Creates an entry with the identifier `id` in `db`: pending, with the
/// action and what else the caller supplied. The row is written at once,
/// whatever the table held under this key.
pub fn create_with(db: &mut MemoryStore, input: CreateLogInput, id: Id) -> (r: Result<
    LogOutput,
    Error,
>)
    ensures
        !(-1 <= input.status <= 1) ==> r == Err::<LogOutput, Error>(
            Error::Validation(Invalid::Status(input.status)),
        ),
        -1 <= input.status <= 1 && input.tokens < 0 ==> r == Err::<LogOutput, Error>(
            Error::Validation(Invalid::Tokens(input.tokens)),
        ),
        input.valid() && !is_action(input.action@) ==> (r matches Err(Error::InvalidAction(name))
            && name@ == input.action@),
        r is Err ==> final(db)@ == old(db)@,
        input.valid() && is_action(input.action@) ==> (r matches Ok(out) && out@ == output_of(
            new_entry(input.uid@, id@, code_of(input.action@) as i8),
        ) && written(
            old(db)@,
            final(db)@,
            created(
                code_of(input.action@) as i8,
                input.gid@,
                input.ip@,
                input.payload@,
                input.tokens,
            ),
            input.uid@,
            id@,
        )),
{
    let (doc, st) = match create_statement(&input, id) {
        Ok(planned) => planned,
        Err(e) => {
            return Err(e);
        },
    };
    proof {
        lemma_created_accepted(
            code_of(input.action@) as i8,
            input.gid@,
            input.ip@,
            input.payload@,
            input.tokens,
            input.uid@,
            id@,
        );
    }
    match db.execute(&st) {
        Ok(_) => Ok(LogOutput::from(doc)),
        Err(e) => Err(e),
    }
}

/// Creates an entry in `db` under a new identifier, which the output
/// carries.
pub fn create(db: &mut MemoryStore, input: CreateLogInput) -> (r: Result<LogOutput, Error>)
    ensures
        !(-1 <= input.status <= 1) ==> r == Err::<LogOutput, Error>(
            Error::Validation(Invalid::Status(input.status)),
        ),
        -1 <= input.status <= 1 && input.tokens < 0 ==> r == Err::<LogOutput, Error>(
            Error::Validation(Invalid::Tokens(input.tokens)),
        ),
        input.valid() && !is_action(input.action@) ==> (r matches Err(Error::InvalidAction(name))
            && name@ == input.action@),
        r is Err ==> final(db)@ == old(db)@,
        input.valid() && is_action(input.action@) ==> (r matches Ok(out) && out@ == output_of(
            new_entry(input.uid@, out@.id, code_of(input.action@) as i8),
        ) && written(
            old(db)@,
            final(db)@,
            created(
                code_of(input.action@) as i8,
                input.gid@,
                input.ip@,
                input.payload@,
                input.tokens,
            ),
            input.uid@,
            out@.id,
        )),
{
    let id = new_id();
    create_with(db, input, id)
}

/// Records the outcome of an entry in `db`. The output shows the entry as
/// it was read before the write: the status and the action that the row
/// held then.
pub fn update(db: &mut MemoryStore, input: UpdateLogInput) -> (r: Result<LogOutput, Error>)
    ensures
        (input.tokens matches Some(t) && t < 0) ==> r == Err::<LogOutput, Error>(
            Error::Validation(Invalid::Tokens(input.tokens->0)),
        ),
        !(input.tokens matches Some(t) && t < 0) && input.status != 1 && input.status != -1 ==> r
            == Err::<LogOutput, Error>(Error::Validation(Invalid::Status(input.status))),
        input.valid() && frozen(old(db)@, input.uid@, input.id@) ==> r == Err::<LogOutput, Error>(
            Error::Frozen,
        ),
        r is Err ==> final(db)@ == old(db)@,
        input.valid() && !frozen(old(db)@, input.uid@, input.id@) ==> (r matches Ok(out) && out@
            == output_of(guarded(blank(input.uid@, input.id@), old(db)@)) && written(
            old(db)@,
            final(db)@,
            outcome(
                input.status,
                match input.payload {
                    Some(v) => Some(v@),
                    None => None,
                },
                input.tokens,
                match input.error {
                    Some(v) => Some(v@),
                    None => None,
                },
            ),
            input.uid@,
            input.id@,
        )),
{
    match input.validate() {
        Ok(()) => {},
        Err(e) => {
            return Err(e);
        },
    }
    let mut doc = Log::with_pk(input.uid, input.id);
    let cols = input.columns();
    proof {
        lemma_outcome_accepted(
            input.status,
            match input.payload {
                Some(v) => Some(v@),
                None => None,
            },
            input.tokens,
            match input.error {
                Some(v) => Some(v@),
                None => None,
            },
            input.uid@,
            input.id@,
        );
    }
    match doc.upsert_fields(db, cols) {
        Ok(_) => Ok(LogOutput::from(doc)),
        Err(e) => Err(e),
    }
}

/// Plans the listing of the recent entries of an owner, for a clock that
/// reads `now_ms` milliseconds since the epoch, with the actions and the
/// fields that the caller names. More than ten actions are refused, and so
/// is a name that is no action.
pub fn list_recently_statement(input: ListRecentlyInput, now_ms: u64) -> (r: Result<
    Statement,
    Error,
>)
    requires
        now_ms / 1000 >= RECENT_SECS,
    ensures
        if input.actions@.len() > MAX_ACTIONS {
            r == Err::<Statement, Error>(
                Error::Validation(Invalid::TooManyActions(input.actions@.len() as usize)),
            )
        } else if !all_actions(input.actions.deep_view()) {
            &&& r matches Err(Error::Validation(Invalid::UnknownAction(name)))
            &&& exists|i: int|
                first_unknown(input.actions.deep_view(), i) && name@
                    == input.actions.deep_view()[i]
        } else if !all_valid(input.requested()) {
            &&& r matches Err(Error::InvalidField(name))
            &&& exists|i: int| first_invalid(input.requested(), i) && name@ == input.requested()[i]
        } else {
            &&& r matches Ok(st)
            &&& st@ == recent_plan(
                input.uid@,
                input.requested(),
                codes_of(input.actions.deep_view()),
                now_ms,
            )
        },
{
    if input.actions.len() > MAX_ACTIONS {
        return Err(Error::Validation(Invalid::TooManyActions(input.actions.len())));
    }
    let actions = match resolve_actions(&input.actions) {
        Ok(actions) => actions,
        Err(e) => {
            return Err(e);
        },
    };
    let fields = match input.fields {
        Some(fields) => fields,
        None => Vec::new(),
    };
    assert(fields.deep_view() =~= input.requested());
    Log::list_recently_statement(input.uid, fields, actions, now_ms)
}

/// Lists the recent entries of an owner in `db`, as
/// [`list_recently_statement`] plans it: those of the last three days, from
/// the latest to the earliest.
pub fn list_recently(db: &MemoryStore, input: ListRecentlyInput, now_ms: u64) -> (r: Result<
    Vec<LogOutput>,
    Error,
>)
    requires
        now_ms / 1000 >= RECENT_SECS,
    ensures
        if input.actions@.len() > MAX_ACTIONS {
            r == Err::<Vec<LogOutput>, Error>(
                Error::Validation(Invalid::TooManyActions(input.actions@.len() as usize)),
            )
        } else if !all_actions(input.actions.deep_view()) {
            &&& r matches Err(Error::Validation(Invalid::UnknownAction(name)))
            &&& exists|i: int|
                first_unknown(input.actions.deep_view(), i) && name@
                    == input.actions.deep_view()[i]
        } else if !all_valid(input.requested()) {
            &&& r matches Err(Error::InvalidField(name))
            &&& exists|i: int| first_invalid(input.requested(), i) && name@ == input.requested()[i]
        } else {
            &&& r matches Ok(outputs)
            &&& output_views(outputs@) == listed(
                returned(
                    db@,
                    recent_plan(
                        input.uid@,
                        input.requested(),
                        codes_of(input.actions.deep_view()),
                        now_ms,
                    ),
                ),
                projection(input.requested(), true),
            ).map_values(|l: LogView| output_of(l))
        },
{
    let ghost requested = input.requested();
    let st = match list_recently_statement(input, now_ms) {
        Ok(st) => st,
        Err(e) => {
            return Err(e);
        },
    };
    proof {
        lemma_projection_valid(requested, true);
    }
    match Log::fetch(db, &st) {
        Ok(logs) => Ok(LogOutput::from_all(&logs)),
        Err(e) => Err(e),
    }
}

/// The store takes the write that creating an entry makes.
pub proof fn lemma_created_accepted(
    code: i8,
    gid: Seq<u8>,
    ip: Seq<char>,
    payload: Seq<u8>,
    tokens: i32,
    uid: Seq<u8>,
    id: Seq<u8>,
)
    ensures
        accepts(StatementView::Update { cols: created(code, gid, ip, payload, tokens), uid, id }),
{
    reveal_strlit("action");
    reveal_strlit("status");
    reveal_strlit("gid");
    reveal_strlit("ip");
    reveal_strlit("payload");
    reveal_strlit("tokens");
    reveal_strlit("error");
    assert("action"@[0] != "status"@[0]);
    assert("action"@[0] != "tokens"@[0]);
    assert("status"@[0] != "tokens"@[0]);
    let cols = created(code, gid, ip, payload, tokens);
    assert(cols[0].0 == "action"@ && cols[0].1 is TinyInt);
    assert(cols[1].0 == "status"@ && cols[1].1 is TinyInt);
    assert(cols[2].0 == "gid"@ && cols[2].1 is Blob);
    assert(cols[3].0 == "ip"@ && cols[3].1 is Text);
    assert(cols[4].0 == "payload"@ && cols[4].1 is Blob);
    assert(cols[5].0 == "tokens"@ && cols[5].1 is Int);
}

/// The store takes the write that recording an outcome makes, and each of
/// its columns is one that may be set.
pub proof fn lemma_outcome_accepted(
    status: i8,
    payload: Option<Seq<u8>>,
    tokens: Option<i32>,
    error: Option<Seq<char>>,
    uid: Seq<u8>,
    id: Seq<u8>,
)
    ensures
        accepts(StatementView::Update { cols: outcome(status, payload, tokens, error), uid, id }),
        all_mutable(outcome(status, payload, tokens, error)),
{
    reveal_strlit("action");
    reveal_strlit("status");
    reveal_strlit("gid");
    reveal_strlit("ip");
    reveal_strlit("payload");
    reveal_strlit("tokens");
    reveal_strlit("error");
    assert("action"@[0] != "status"@[0]);
    assert("action"@[0] != "tokens"@[0]);
    assert("status"@[0] != "tokens"@[0]);
    assert(MUTABLE[0]@ == "status"@ && MUTABLE[4]@ == "payload"@ && MUTABLE[5]@ == "tokens"@
        && MUTABLE[6]@ == "error"@);
    assert(is_mutable("status"@) && is_mutable("payload"@) && is_mutable("tokens"@) && is_mutable(
        "error"@,
    ));
    let c0: Pairs = seq![("status"@, ValueView::TinyInt(status))];
    let c1 = put_some(
        c0,
        "payload"@,
        match payload {
            Some(v) => Some(ValueView::Blob(v)),
            None => None,
        },
    );
    let c2 = put_some(
        c1,
        "tokens"@,
        match tokens {
            Some(v) => Some(ValueView::Int(v)),
            None => None,
        },
    );
    let c3 = put_some(
        c2,
        "error"@,
        match error {
            Some(v) => Some(ValueView::Text(v)),
            None => None,
        },
    );
    assert(good(c0)) by {
        assert(c0[0].0 == "status"@);
    }
    if payload is Some {
        lemma_put_good(c0, "payload"@, ValueView::Blob(payload->0));
    }
    if tokens is Some {
        lemma_put_good(c1, "tokens"@, ValueView::Int(tokens->0));
    }
    if error is Some {
        lemma_put_good(c2, "error"@, ValueView::Text(error->0));
    }
    assert(good(c3));
}

/// There is a column, and each column is one that may be set, to a value
/// that it may be set to.
spec fn good(cols: Pairs) -> bool {
    &&& cols.len() > 0
    &&& forall|i: int|
        0 <= i < cols.len() ==> settable((#[trigger] cols[i]).0, cols[i].1) && is_mutable(cols[i].0)
}

/// Setting one more good column keeps the columns good.
proof fn lemma_put_good(cols: Pairs, name: Seq<char>, value: ValueView)
    requires
        good(cols),
        settable(name, value),
        is_mutable(name),
    ensures
        good(put(cols, name, value)),
{
    let after = put(cols, name, value);
    assert forall|i: int| 0 <= i < after.len() implies settable((#[trigger] after[i]).0, after[i].1)
        && is_mutable(after[i].0) by {
        if is_set(cols, name) {
            if i != slot(cols, name) {
                assert(after[i] == cols[i]);
            }
        } else {
            if i < cols.len() {
                assert(after[i] == cols[i]);
            }
        }
    }
}

} // verus!
