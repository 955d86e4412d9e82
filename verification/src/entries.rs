//! Reading, changing and listing entries. Each operation comes in parts: a
//! function that plans the statement, one that takes what the store
//! answered, and one that runs both against a store in memory.

use vstd::prelude::*;
use vstd::string::StringExecFns;
use crate::columns::{
    distinct, find, lemma_put_distinct, put, put_row, row_view, ColumnsMap, Pairs, Value,
    ValueView,
};
use crate::error::Error;
use crate::id::{floor_bytes, recent_start, Id, RECENT_SECS};
use crate::log::{
    all_fields, all_valid, blank, filled, first_invalid, is_field, lemma_projection_valid,
    projection, tiny_column, with_field, zero_id, Log, LogView,
};
use crate::statement::{Statement, StatementView};
use crate::store::{
    accepts, answer, cell, cells, fields_of, holds, is_refusal, lemma_select_one, place, returned,
    rows_view, selected, written, MemoryStore, RowModel, Table, REFUSED,
};
use crate::text::copy_names;

verus! {

/// `log` with `fields` as the fields that were fetched.
pub open spec fn with_fields(log: LogView, fields: Seq<Seq<char>>) -> LogView {
    LogView { fields, ..log }
}

/// The columns of a row that came back for `fields`.
pub open spec fn fetched(fields: Seq<Seq<char>>, row: Seq<Option<ValueView>>) -> Pairs {
    put_row(Seq::empty(), fields, row)
}

/// The entry `log` after a read of `fields` brought `row`.
pub open spec fn got(log: LogView, fields: Seq<Seq<char>>, row: Seq<Option<ValueView>>) -> LogView {
    filled(with_fields(log, fields), fetched(fields, row))
}

/// The names of the columns that an update may set.
pub const MUTABLE: [&'static str; 7] = [
    "status",
    "gid",
    "action",
    "ip",
    "payload",
    "tokens",
    "error",
];

/// `name` is a column that an update may set.
pub open spec fn is_mutable(name: Seq<char>) -> bool {
    exists|i: int| 0 <= i < 7 && MUTABLE[i]@ == name
}

/// Every column of `cols` may be set.
pub open spec fn all_mutable(cols: Pairs) -> bool {
    forall|i: int| 0 <= i < cols.len() ==> is_mutable((#[trigger] cols[i]).0)
}

/// `i` is the place of the first column of `cols` that may not be set.
pub open spec fn first_immutable(cols: Pairs, i: int) -> bool {
    &&& 0 <= i < cols.len()
    &&& !is_mutable(cols[i].0)
    &&& forall|j: int| 0 <= j < i ==> is_mutable((#[trigger] cols[j]).0)
}

/// What a read finds in `column`, as a value: a null where it finds nothing.
pub open spec fn or_empty(column: Option<ValueView>) -> ValueView {
    match column {
        Some(v) => v,
        None => ValueView::Empty,
    }
}

/// The status that `row` records; pending where it records none.
pub open spec fn status_of(row: RowModel) -> i8 {
    tiny_column(Some(or_empty(cell(row, "status"@))), 0)
}

/// The action that `row` records; zero where it records none.
pub open spec fn action_of(row: RowModel) -> i8 {
    tiny_column(Some(or_empty(cell(row, "action"@))), 0)
}

/// The table holds the entry, and with an outcome: it takes no more changes.
pub open spec fn frozen(t: Table, uid: Seq<u8>, id: Seq<u8>) -> bool {
    holds(t, uid, id) && status_of(t[place(t, uid, id)]) != 0
}

/// The fields that the read before an update fetches.
pub open spec fn guard_fields() -> Seq<Seq<char>> {
    seq!["status"@, "action"@]
}

/// The entry `log` after the read before an update: with the status and the
/// action of its row, where the table holds one.
pub open spec fn guarded(log: LogView, t: Table) -> LogView {
    if holds(t, log.uid, log.id) {
        LogView {
            status: status_of(t[place(t, log.uid, log.id)]),
            action: action_of(t[place(t, log.uid, log.id)]),
            fields: guard_fields(),
            ..log
        }
    } else {
        with_fields(log, guard_fields())
    }
}

/// What a read of `fields` brings of `row`, by name: for each field asked
/// for, what the row holds in it, a null where it holds nothing.
pub proof fn lemma_fetched(row: RowModel, fields: Seq<Seq<char>>, name: Seq<char>)
    ensures
        distinct(fetched(fields, cells(row, fields))),
        find(fetched(fields, cells(row, fields)), name) == if fields.contains(name) {
            Some(or_empty(cell(row, name)))
        } else {
            None
        },
    decreases fields.len(),
{
    let all = fetched(fields, cells(row, fields));
    if fields.len() == 0 {
        assert(all =~= Seq::empty());
    } else {
        let front = fields.drop_last();
        let last = fields.last();
        assert(cells(row, fields).drop_last() =~= cells(row, front));
        lemma_fetched(row, front, name);
        let part = fetched(front, cells(row, front));
        lemma_put_distinct(part, last, or_empty(cell(row, last)));
        assert(all == put(part, last, or_empty(cell(row, last))));
        if name == last {
            assert(fields[fields.len() - 1] == name);
        } else {
            if front.contains(name) {
                let k = choose|k: int| 0 <= k < front.len() && front[k] == name;
                assert(fields[k] == name);
            } else if fields.contains(name) {
                let k = choose|k: int| 0 <= k < fields.len() && fields[k] == name;
                assert(front[k] == name);
            }
        }
    }
}

/// The read before an update fetches the status and the action.
pub proof fn lemma_guard_fields()
    ensures
        all_valid(seq!["status"@]),
        projection(seq!["status"@], false) == guard_fields(),
        guard_fields().contains("status"@),
        guard_fields().contains("action"@),
        !guard_fields().contains("uid"@),
        !guard_fields().contains("id"@),
        !guard_fields().contains("gid"@),
        !guard_fields().contains("ip"@),
        !guard_fields().contains("payload"@),
        !guard_fields().contains("tokens"@),
        !guard_fields().contains("error"@),
{
    reveal_strlit("status");
    reveal_strlit("action");
    reveal_strlit("uid");
    reveal_strlit("id");
    reveal_strlit("gid");
    reveal_strlit("ip");
    reveal_strlit("payload");
    reveal_strlit("tokens");
    reveal_strlit("error");
    assert("status"@[0] != "action"@[0]);
    assert("status"@[0] != "tokens"@[0]);
    assert("action"@[0] != "tokens"@[0]);
    let one = seq!["status"@];
    assert(one[0] == "status"@);
    assert(all_fields()[3] == "status"@);
    assert(is_field("status"@));
    assert(!one.contains("action"@));
    assert(with_field(one, "action"@) =~= guard_fields());
    assert(guard_fields()[0] == "status"@);
    assert(guard_fields()[1] == "action"@);
    assert(with_field(guard_fields(), "status"@) == guard_fields());
}

/// Twelve bytes of 255: the cursor of a listing that starts at the latest
/// entry.
pub open spec fn max_id() -> Seq<u8> {
    Seq::new(12, |i: int| 255u8)
}

/// The most rows that a listing of recent entries returns.
pub const RECENT_LIMIT: i32 = 1000;

/// The statement of a backward listing.
pub open spec fn list_plan(
    uid: Seq<u8>,
    requested: Seq<Seq<char>>,
    page_size: u16,
    page_token: Option<Seq<u8>>,
    action: Option<i8>,
) -> StatementView {
    StatementView::SelectBefore {
        fields: projection(requested, true),
        uid,
        action,
        before: match page_token {
            Some(token) => token,
            None => max_id(),
        },
        limit: page_size as i32,
    }
}

/// The statement of a listing of recent entries at the time `now_ms`.
pub open spec fn recent_plan(
    uid: Seq<u8>,
    requested: Seq<Seq<char>>,
    actions: Seq<i8>,
    now_ms: u64,
) -> StatementView {
    StatementView::SelectAfter {
        fields: projection(requested, true),
        uid,
        after: floor_bytes(recent_start(now_ms)),
        actions,
        limit: RECENT_LIMIT,
    }
}

/// The views of `logs`.
pub open spec fn log_views(logs: Seq<Log>) -> Seq<LogView> {
    logs.map_values(|l: Log| l@)
}

/// The entry that a listing makes of a row that came back for `fields`.
pub open spec fn entry_of(fields: Seq<Seq<char>>, row: Seq<Option<ValueView>>) -> LogView {
    got(blank(zero_id(), zero_id()), fields, row)
}

/// The entries that a listing of `fields` makes of `rows`.
pub open spec fn listed(rows: Seq<RowModel>, fields: Seq<Seq<char>>) -> Seq<LogView> {
    rows.map_values(|r: RowModel| entry_of(fields, cells(r, fields)))
}

/// `i` is the place of the first row of `rows` that has not `n` columns.
pub open spec fn first_misshapen(rows: Seq<Vec<Option<Value>>>, n: nat, i: int) -> bool {
    &&& 0 <= i < rows.len()
    &&& rows[i]@.len() != n
    &&& forall|j: int| 0 <= j < i ==> (#[trigger] rows[j])@.len() == n
}

fn is_mutable_exec(name: &str) -> (r: bool)
    ensures
        r == is_mutable(name@),
{
    let mut i: usize = 0;
    while i < 7
        invariant
            i <= 7,
            forall|j: int| 0 <= j < i ==> MUTABLE[j]@ != name@,
        decreases 7 - i,
    {
        if name.eq(MUTABLE[i]) {
            return true;
        }
        i += 1;
    }
    false
}

impl Log {
    /// Plans the read of this entry's row: resolves `select_fields`, notes
    /// the result as the fields fetched, and gives the statement. A name
    /// that is no field is refused and leaves the entry as it is.
    pub fn get_one_statement(&mut self, select_fields: Vec<String>) -> (r: Result<Statement, Error>)
        ensures
            match r {
                Ok(st) => {
                    &&& all_valid(select_fields.deep_view())
                    &&& st@ == (StatementView::SelectOne {
                        fields: projection(select_fields.deep_view(), false),
                        uid: old(self)@.uid,
                        id: old(self)@.id,
                    })
                    &&& final(self)@ == with_fields(
                        old(self)@,
                        projection(select_fields.deep_view(), false),
                    )
                },
                Err(e) => {
                    &&& final(self)@ == old(self)@
                    &&& e matches Error::InvalidField(name)
                    &&& exists|i: int|
                        first_invalid(select_fields.deep_view(), i) && name@
                            == select_fields.deep_view()[i]
                },
            },
    {
        match Self::select_fields(select_fields, false) {
            Ok(fields) => {
                self._fields = copy_names(&fields);
                Ok(Statement::SelectOne { fields, uid: self.uid, id: self.id })
            },
            Err(e) => Err(e),
        }
    }

    /// Reads this entry's row from `db` and fills the entry from it. The
    /// fields fetched are those that `select_fields` resolves to. A name that
    /// is no field is refused; a missing row means that the entry is not
    /// found, and leaves all but the fields fetched as it was.
    pub fn get_one(&mut self, db: &MemoryStore, select_fields: Vec<String>) -> (r: Result<(), Error>)
        ensures
            match r {
                Ok(()) => {
                    &&& all_valid(select_fields.deep_view())
                    &&& holds(db@, old(self)@.uid, old(self)@.id)
                    &&& final(self)@ == got(
                        old(self)@,
                        projection(select_fields.deep_view(), false),
                        cells(
                            db@[place(db@, old(self)@.uid, old(self)@.id)],
                            projection(select_fields.deep_view(), false),
                        ),
                    )
                },
                Err(e) => if all_valid(select_fields.deep_view()) {
                    &&& !holds(db@, old(self)@.uid, old(self)@.id)
                    &&& e == Error::NotFound
                    &&& final(self)@ == with_fields(
                        old(self)@,
                        projection(select_fields.deep_view(), false),
                    )
                } else {
                    &&& final(self)@ == old(self)@
                    &&& e matches Error::InvalidField(name)
                    &&& exists|i: int|
                        first_invalid(select_fields.deep_view(), i) && name@
                            == select_fields.deep_view()[i]
                },
            },
    {
        let ghost requested = select_fields.deep_view();
        let ghost fields = projection(requested, false);
        let st = match self.get_one_statement(select_fields) {
            Ok(st) => st,
            Err(e) => {
                return Err(e);
            },
        };
        proof {
            use_type_invariant(db);
            lemma_projection_valid(requested, false);
            lemma_select_one(db@, fields, self@.uid, self@.id);
        }
        match db.query(&st) {
            Ok(rows) => {
                proof {
                    let found = selected(db@, st@);
                    assert(returned(db@, st@) == found);
                    assert(rows_view(rows@).len() == rows@.len());
                    if rows@.len() > 0 {
                        assert(rows_view(rows@)[0] == row_view(rows@[0]@));
                        assert(answer(db@, st@)[0] == cells(found[0], fields));
                    }
                }
                self.take_row(&rows)
            },
            Err(e) => Err(e),
        }
    }

    /// Plans the write of `cols` to this entry's row, after the read that
    /// goes before it: `found` says whether that read found the row, and the
    /// entry's status is what it brought. An entry with an outcome is frozen;
    /// otherwise a column that may not be set is refused.
    pub fn upsert_statement(&self, found: bool, cols: ColumnsMap) -> (r: Result<Statement, Error>)
        ensures
            match r {
                Ok(st) => {
                    &&& !(found && self.status != 0)
                    &&& all_mutable(cols@)
                    &&& st@ == (StatementView::Update { cols: cols@, uid: self@.uid, id: self@.id })
                },
                Err(e) => if found && self.status != 0 {
                    e == Error::Frozen
                } else {
                    &&& e matches Error::InvalidField(name)
                    &&& exists|i: int| first_immutable(cols@, i) && name@ == cols@[i].0
                },
            },
    {
        if found && self.status != 0 {
            return Err(Error::Frozen);
        }
        let mut i: usize = 0;
        while i < cols.len()
            invariant
                i <= cols@.len(),
                !(found && self.status != 0),
                forall|j: int| 0 <= j < i ==> is_mutable((#[trigger] cols@[j]).0),
            decreases cols@.len() - i,
        {
            let (name, _) = cols.entry(i);
            if !is_mutable_exec(name.as_str()) {
                assert(first_immutable(cols@, i as int));
                return Err(Error::InvalidField(name.clone()));
            }
            i += 1;
        }
        Ok(Statement::Update { cols, uid: self.uid, id: self.id })
    }

    /// Writes `cols` to this entry's row in `db`, unless the entry is frozen.
    /// It first reads the status of the row, which the entry keeps together
    /// with the action. A row with an outcome is frozen: nothing is written.
    /// Otherwise every column must be one that may be set, and then exactly
    /// the columns of `cols` are written, to a new row where there was none.
    pub fn upsert_fields(&mut self, db: &mut MemoryStore, cols: ColumnsMap) -> (r: Result<
        bool,
        Error,
    >)
        ensures
            final(self)@ == guarded(old(self)@, old(db)@),
            match r {
                Ok(done) => {
                    &&& done
                    &&& !frozen(old(db)@, old(self)@.uid, old(self)@.id)
                    &&& all_mutable(cols@)
                    &&& written(old(db)@, final(db)@, cols@, old(self)@.uid, old(self)@.id)
                },
                Err(e) => {
                    &&& final(db)@ == old(db)@
                    &&& if frozen(old(db)@, old(self)@.uid, old(self)@.id) {
                        e == Error::Frozen
                    } else if all_mutable(cols@) {
                        &&& is_refusal(e)
                        &&& !accepts(
                            StatementView::Update {
                                cols: cols@,
                                uid: old(self)@.uid,
                                id: old(self)@.id,
                            },
                        )
                    } else {
                        &&& e matches Error::InvalidField(name)
                        &&& exists|i: int| first_immutable(cols@, i) && name@ == cols@[i].0
                    }
                },
            },
    {
        let ghost t = db@;
        let ghost before = self@;
        let mut asked: Vec<String> = Vec::new();
        asked.push(String::from_str("status"));
        proof {
            assert(asked.deep_view() =~= seq!["status"@]);
            lemma_guard_fields();
        }
        let guard = self.get_one(&*db, asked);
        proof {
            if holds(t, before.uid, before.id) {
                let row = t[place(t, before.uid, before.id)];
                lemma_fetched(row, guard_fields(), "status"@);
                lemma_fetched(row, guard_fields(), "action"@);
                lemma_fetched(row, guard_fields(), "uid"@);
                lemma_fetched(row, guard_fields(), "id"@);
                lemma_fetched(row, guard_fields(), "gid"@);
                lemma_fetched(row, guard_fields(), "ip"@);
                lemma_fetched(row, guard_fields(), "payload"@);
                lemma_fetched(row, guard_fields(), "tokens"@);
                lemma_fetched(row, guard_fields(), "error"@);
            }
            assert(self@ == guarded(before, t));
        }
        let st = match self.upsert_statement(guard.is_ok(), cols) {
            Ok(st) => st,
            Err(e) => {
                return Err(e);
            },
        };
        match db.execute(&st) {
            Ok(_) => Ok(true),
            Err(e) => Err(e),
        }
    }

    /// Plans a backward listing of the entries of `uid`: the fields that
    /// `select_fields` resolves to, the owner and the identifier among them,
    /// of at most `page_size` entries below `page_token`, or from the latest
    /// entry where no token is given, and with the action `action` where one
    /// is given.
    pub fn list_statement(
        uid: Id,
        select_fields: Vec<String>,
        page_size: u16,
        page_token: Option<Id>,
        action: Option<i8>,
    ) -> (r: Result<Statement, Error>)
        ensures
            match r {
                Ok(st) => {
                    &&& all_valid(select_fields.deep_view())
                    &&& st@ == list_plan(
                        uid@,
                        select_fields.deep_view(),
                        page_size,
                        match page_token {
                            Some(token) => Some(token@),
                            None => None,
                        },
                        action,
                    )
                },
                Err(e) => {
                    &&& e matches Error::InvalidField(name)
                    &&& exists|i: int|
                        first_invalid(select_fields.deep_view(), i) && name@
                            == select_fields.deep_view()[i]
                },
            },
    {
        let fields = match Self::select_fields(select_fields, true) {
            Ok(fields) => fields,
            Err(e) => {
                return Err(e);
            },
        };
        let before = match page_token {
            Some(token) => token,
            None => Id::max(),
        };
        Ok(Statement::SelectBefore { fields, uid, action, before, limit: page_size as i32 })
    }

    /// Plans a listing of the recent entries of `uid`, for a clock that
    /// reads `now_ms` milliseconds since the epoch: the fields that
    /// `select_fields` resolves to, the owner and the identifier among them,
    /// of at most a thousand entries above the least identifier of three
    /// days ago, and with one of `actions` unless there are none.
    pub fn list_recently_statement(
        uid: Id,
        select_fields: Vec<String>,
        actions: Vec<i8>,
        now_ms: u64,
    ) -> (r: Result<Statement, Error>)
        requires
            now_ms / 1000 >= RECENT_SECS,
        ensures
            match r {
                Ok(st) => {
                    &&& all_valid(select_fields.deep_view())
                    &&& st@ == recent_plan(uid@, select_fields.deep_view(), actions@, now_ms)
                },
                Err(e) => {
                    &&& e matches Error::InvalidField(name)
                    &&& exists|i: int|
                        first_invalid(select_fields.deep_view(), i) && name@
                            == select_fields.deep_view()[i]
                },
            },
    {
        let fields = match Self::select_fields(select_fields, true) {
            Ok(fields) => fields,
            Err(e) => {
                return Err(e);
            },
        };
        let after = Id::recent_floor(now_ms);
        Ok(Statement::SelectAfter { fields, uid, after, actions, limit: RECENT_LIMIT })
    }

    /// Makes an entry of each row that a listing of `fields` brought. A row
    /// with another number of columns than `fields` is refused.
    pub fn from_rows(fields: &Vec<String>, rows: &Vec<Vec<Option<Value>>>) -> (r: Result<
        Vec<Log>,
        Error,
    >)
        ensures
            match r {
                Ok(logs) => {
                    &&& logs@.len() == rows@.len()
                    &&& forall|i: int|
                        0 <= i < rows@.len() ==> (#[trigger] rows@[i])@.len() == fields@.len()
                    &&& forall|i: int|
                        0 <= i < rows@.len() ==> (#[trigger] logs@[i])@ == entry_of(
                            fields.deep_view(),
                            row_view(rows@[i]@),
                        )
                },
                Err(e) => exists|i: int|
                    first_misshapen(rows@, fields@.len(), i) && e == (Error::RowShape {
                        expected: fields@.len() as usize,
                        found: rows@[i]@.len() as usize,
                    }),
            },
    {
        let mut logs: Vec<Log> = Vec::with_capacity(rows.len());
        let mut i: usize = 0;
        while i < rows.len()
            invariant
                i <= rows.len(),
                logs@.len() == i,
                forall|j: int| 0 <= j < i ==> (#[trigger] rows@[j])@.len() == fields@.len(),
                forall|j: int|
                    0 <= j < i ==> (#[trigger] logs@[j])@ == entry_of(
                        fields.deep_view(),
                        row_view(rows@[j]@),
                    ),
            decreases rows.len() - i,
        {
            let mut doc = Log::default();
            doc._fields = copy_names(fields);
            let mut cols = ColumnsMap::with_capacity(fields.len());
            assert(cols@ =~= Seq::empty());
            match cols.fill(&rows[i], fields) {
                Ok(()) => {
                    doc.fill(&cols);
                },
                Err(e) => {
                    assert(first_misshapen(rows@, fields@.len() as nat, i as int));
                    return Err(e);
                },
            }
            logs.push(doc);
            i += 1;
        }
        Ok(logs)
    }

    /// Lists entries of `uid` in `db`, from the latest to the earliest: at
    /// most `page_size` of those below `page_token`, or from the latest where
    /// no token is given, and only those with the action `action` where one
    /// is given. The identifier of the last entry is the token of the next
    /// page. A name that is no field is refused, and so is a page of no
    /// entries.
    pub fn list(
        db: &MemoryStore,
        uid: Id,
        select_fields: Vec<String>,
        page_size: u16,
        page_token: Option<Id>,
        action: Option<i8>,
    ) -> (r: Result<Vec<Log>, Error>)
        ensures
            match r {
                Ok(logs) => {
                    let st = list_plan(
                        uid@,
                        select_fields.deep_view(),
                        page_size,
                        match page_token {
                            Some(token) => Some(token@),
                            None => None,
                        },
                        action,
                    );
                    &&& all_valid(select_fields.deep_view())
                    &&& page_size > 0
                    &&& log_views(logs@) == listed(
                        returned(db@, st),
                        projection(select_fields.deep_view(), true),
                    )
                },
                Err(e) => if all_valid(select_fields.deep_view()) {
                    page_size == 0 && is_refusal(e)
                } else {
                    &&& e matches Error::InvalidField(name)
                    &&& exists|i: int|
                        first_invalid(select_fields.deep_view(), i) && name@
                            == select_fields.deep_view()[i]
                },
            },
    {
        let ghost requested = select_fields.deep_view();
        let st = match Self::list_statement(uid, select_fields, page_size, page_token, action) {
            Ok(st) => st,
            Err(e) => {
                return Err(e);
            },
        };
        proof {
            lemma_projection_valid(requested, true);
        }
        Self::fetch(db, &st)
    }

    /// Lists the recent entries of `uid` in `db`, for a clock that reads
    /// `now_ms` milliseconds since the epoch: those above the least
    /// identifier of three days ago, from the latest to the earliest, at
    /// most a thousand, and only those with one of `actions` unless there
    /// are none. Filtering by several actions makes the store look at every
    /// recent entry of the owner, so the actions should be few.
    pub fn list_recently(
        db: &MemoryStore,
        uid: Id,
        select_fields: Vec<String>,
        actions: Vec<i8>,
        now_ms: u64,
    ) -> (r: Result<Vec<Log>, Error>)
        requires
            now_ms / 1000 >= RECENT_SECS,
        ensures
            match r {
                Ok(logs) => {
                    &&& all_valid(select_fields.deep_view())
                    &&& log_views(logs@) == listed(
                        returned(
                            db@,
                            recent_plan(uid@, select_fields.deep_view(), actions@, now_ms),
                        ),
                        projection(select_fields.deep_view(), true),
                    )
                },
                Err(e) => {
                    &&& !all_valid(select_fields.deep_view())
                    &&& e matches Error::InvalidField(name)
                    &&& exists|i: int|
                        first_invalid(select_fields.deep_view(), i) && name@
                            == select_fields.deep_view()[i]
                },
            },
    {
        let ghost requested = select_fields.deep_view();
        let st = match Self::list_recently_statement(uid, select_fields, actions, now_ms) {
            Ok(st) => st,
            Err(e) => {
                return Err(e);
            },
        };
        proof {
            lemma_projection_valid(requested, true);
        }
        Self::fetch(db, &st)
    }

    /// Runs a listing against `db` and makes entries of the rows.
    pub(crate) fn fetch(db: &MemoryStore, st: &Statement) -> (r: Result<Vec<Log>, Error>)
        requires
            st@ is SelectBefore || st@ is SelectAfter,
        ensures
            match r {
                Ok(logs) => accepts(st@) && log_views(logs@) == listed(
                    returned(db@, st@),
                    fields_of(st@),
                ),
                Err(e) => !accepts(st@) && is_refusal(e),
            },
    {
        let rows = match db.query(st) {
            Ok(rows) => rows,
            Err(e) => {
                return Err(e);
            },
        };
        let fields: &Vec<String> = match st {
            Statement::SelectBefore { fields, .. } => fields,
            Statement::SelectAfter { fields, .. } => fields,
            Statement::SelectOne { fields, .. } => fields,
            Statement::Update { .. } => {
                return Err(Error::Storage(String::from_str(REFUSED)));
            },
        };
        proof {
            let want = fields_of(st@);
            let back = returned(db@, st@);
            assert(rows_view(rows@).len() == rows@.len());
            assert forall|i: int| 0 <= i < rows@.len() implies (#[trigger] rows@[i])@.len()
                == fields@.len() by {
                assert(rows_view(rows@)[i] == row_view(rows@[i]@));
                assert(answer(db@, st@)[i] == cells(back[i], want));
            }
        }
        match Self::from_rows(fields, &rows) {
            Ok(logs) => {
                proof {
                    let want = fields_of(st@);
                    let back = returned(db@, st@);
                    assert forall|i: int| 0 <= i < logs@.len() implies log_views(logs@)[i]
                        == listed(back, want)[i] by {
                        assert(rows_view(rows@)[i] == row_view(rows@[i]@));
                        assert(answer(db@, st@)[i] == cells(back[i], want));
                    }
                    assert(log_views(logs@) =~= listed(back, want));
                }
                Ok(logs)
            },
            Err(e) => {
                proof {
                    let k = choose|k: int| first_misshapen(rows@, fields@.len() as nat, k);
                    assert(first_misshapen(rows@, fields@.len() as nat, k));
                    assert(rows@[k]@.len() == fields@.len());
                }
                Err(e)
            },
        }
    }

    /// Takes the answer to a read of this entry's row: fills the entry from
    /// the first row. No row means that the entry is not found.
    pub fn take_row(&mut self, rows: &Vec<Vec<Option<Value>>>) -> (r: Result<(), Error>)
        ensures
            match r {
                Ok(()) => {
                    &&& rows@.len() > 0
                    &&& rows@[0]@.len() == old(self)@.fields.len()
                    &&& final(self)@ == got(old(self)@, old(self)@.fields, row_view(rows@[0]@))
                },
                Err(e) => {
                    &&& final(self)@ == old(self)@
                    &&& rows@.len() == 0 ==> e == Error::NotFound
                    &&& rows@.len() > 0 ==> rows@[0]@.len() != old(self)@.fields.len() && e == (
                    Error::RowShape {
                        expected: old(self)@.fields.len() as usize,
                        found: rows@[0]@.len() as usize,
                    })
                },
            },
    {
        if rows.len() == 0 {
            return Err(Error::NotFound);
        }
        let mut cols = ColumnsMap::with_capacity(self._fields.len());
        assert(cols@ =~= Seq::empty());
        match cols.fill(&rows[0], &self._fields) {
            Ok(()) => {
                self.fill(&cols);
                Ok(())
            },
            Err(e) => Err(e),
        }
    }
}

} // verus!
