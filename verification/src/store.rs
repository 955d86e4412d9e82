//! The row store as the library understands it: one table of rows keyed by
//! owner and identifier, what each statement asks of it, and a store in
//! memory that answers accordingly.

use vstd::prelude::*;
use vstd::string::StringExecFns;
use crate::columns::{distinct, find, put_all, row_view, ColumnsMap, Pairs, Value, ValueView};
use crate::error::Error;
use crate::id::{be_value, Id};
use crate::log::{all_fields, all_valid, is_field, Log};
use crate::statement::{Statement, StatementView};
use crate::text::contains;

verus! {

/// One row of the table: its key and the columns that were set.
pub struct RowModel {
    pub uid: Seq<u8>,
    pub id: Seq<u8>,
    pub cols: Pairs,
}

/// The rows of the table.
pub type Table = Seq<RowModel>;

/// Row `a` stands before row `b`: it has the greater identifier, or the same
/// identifier and the greater owner.
pub open spec fn before(a: RowModel, b: RowModel) -> bool {
    be_value(a.id) > be_value(b.id) || (be_value(a.id) == be_value(b.id) && be_value(a.uid)
        > be_value(b.uid))
}

/// The table is in order: every key has twelve bytes each, no name occurs
/// twice among the columns of a row, and each row stands before the rows
/// behind it. No key occurs twice in such a table, and the rows of one owner
/// follow each other from the latest identifier to the earliest.
pub open spec fn ordered(t: Table) -> bool {
    &&& forall|i: int|
        0 <= i < t.len() ==> (#[trigger] t[i]).uid.len() == 12 && t[i].id.len() == 12 && distinct(
            t[i].cols,
        )
    &&& forall|i: int, j: int| 0 <= i < j < t.len() ==> before(t[i], t[j])
}

/// The table holds a row with this key.
pub open spec fn holds(t: Table, uid: Seq<u8>, id: Seq<u8>) -> bool {
    exists|k: int| 0 <= k < t.len() && t[k].uid == uid && t[k].id == id
}

/// The place of the row with this key, where there is one.
pub open spec fn place(t: Table, uid: Seq<u8>, id: Seq<u8>) -> int {
    choose|k: int| 0 <= k < t.len() && t[k].uid == uid && t[k].id == id
}

/// The columns of the row with this key, if the table holds it.
pub open spec fn row_of(t: Table, uid: Seq<u8>, id: Seq<u8>) -> Option<Pairs> {
    if holds(t, uid, id) {
        Some(t[place(t, uid, id)].cols)
    } else {
        None
    }
}

/// A column named `name` may be set to `value`: the name is one of status,
/// gid, action, ip, payload, tokens and error, and the value is null or of
/// the column's type.
pub open spec fn settable(name: Seq<char>, value: ValueView) -> bool {
    if name == "status"@ || name == "action"@ {
        value is TinyInt || value is Empty
    } else if name == "gid"@ || name == "payload"@ {
        value is Blob || value is Empty
    } else if name == "ip"@ || name == "error"@ {
        value is Text || value is Empty
    } else if name == "tokens"@ {
        value is Int || value is Empty
    } else {
        false
    }
}

/// The store takes the statement: a read names at least one field, only
/// fields of the schema, and asks for at least one row; a write sets at
/// least one column, and each to a value that it may be set to.
pub open spec fn accepts(st: StatementView) -> bool {
    match st {
        StatementView::SelectOne { fields, .. } => fields.len() > 0 && all_valid(fields),
        StatementView::Update { cols, .. } => cols.len() > 0 && forall|i: int|
            0 <= i < cols.len() ==> settable((#[trigger] cols[i]).0, cols[i].1),
        StatementView::SelectBefore { fields, limit, .. } => fields.len() > 0 && all_valid(fields)
            && limit > 0,
        StatementView::SelectAfter { fields, limit, .. } => fields.len() > 0 && all_valid(fields)
            && limit > 0,
    }
}

/// What a read finds in column `field` of `row`: the key's bytes for the
/// owner and the identifier, the value that was set for another column, and
/// nothing where none was set or a null was.
pub open spec fn cell(row: RowModel, field: Seq<char>) -> Option<ValueView> {
    if field == "uid"@ {
        Some(ValueView::Blob(row.uid))
    } else if field == "id"@ {
        Some(ValueView::Blob(row.id))
    } else {
        match find(row.cols, field) {
            Some(ValueView::Empty) => None,
            Some(v) => Some(v),
            None => None,
        }
    }
}

/// What a read of `fields` finds in `row`.
pub open spec fn cells(row: RowModel, fields: Seq<Seq<char>>) -> Seq<Option<ValueView>> {
    fields.map_values(|f: Seq<char>| cell(row, f))
}

/// The action of `row` is `action`.
pub open spec fn acts(row: RowModel, action: i8) -> bool {
    find(row.cols, "action"@) == Some(ValueView::TinyInt(action))
}

/// `row` belongs to `uid`, lies below `bound`, and has the action `action`
/// where one is given.
pub open spec fn is_before(row: RowModel, uid: Seq<u8>, action: Option<i8>, bound: Seq<u8>) -> bool {
    &&& row.uid == uid
    &&& be_value(row.id) < be_value(bound)
    &&& action matches Some(a) ==> acts(row, a)
}

/// `row` belongs to `uid`, lies above `bound`, and has one of `actions`
/// unless there are none.
pub open spec fn is_after(row: RowModel, uid: Seq<u8>, bound: Seq<u8>, actions: Seq<i8>) -> bool {
    &&& row.uid == uid
    &&& be_value(row.id) > be_value(bound)
    &&& actions.len() > 0 ==> exists|k: int| 0 <= k < actions.len() && acts(row, actions[k])
}

/// The read selects `row`.
pub open spec fn chosen(st: StatementView, row: RowModel) -> bool {
    match st {
        StatementView::SelectOne { uid, id, .. } => row.uid == uid && row.id == id,
        StatementView::Update { .. } => false,
        StatementView::SelectBefore { uid, action, before, .. } => is_before(
            row,
            uid,
            action,
            before,
        ),
        StatementView::SelectAfter { uid, after, actions, .. } => is_after(
            row,
            uid,
            after,
            actions,
        ),
    }
}

/// The rows that a read selects, in the table's order and before any limit.
pub open spec fn selected(t: Table, st: StatementView) -> Seq<RowModel>
    decreases t.len(),
{
    if t.len() == 0 {
        Seq::empty()
    } else if chosen(st, t.last()) {
        selected(t.drop_last(), st).push(t.last())
    } else {
        selected(t.drop_last(), st)
    }
}

/// The number of rows that a read may return at most.
pub open spec fn limit_of(st: StatementView) -> int {
    match st {
        StatementView::SelectOne { .. } => 1,
        StatementView::Update { .. } => 0,
        StatementView::SelectBefore { limit, .. } => limit as int,
        StatementView::SelectAfter { limit, .. } => limit as int,
    }
}

/// The fields that a read fetches.
pub open spec fn fields_of(st: StatementView) -> Seq<Seq<char>> {
    match st {
        StatementView::SelectOne { fields, .. } => fields,
        StatementView::Update { .. } => Seq::empty(),
        StatementView::SelectBefore { fields, .. } => fields,
        StatementView::SelectAfter { fields, .. } => fields,
    }
}

/// The first `n` of `rows`, or all of them where there are fewer.
pub open spec fn first(rows: Seq<RowModel>, n: int) -> Seq<RowModel> {
    if 0 <= n < rows.len() {
        rows.take(n)
    } else {
        rows
    }
}

/// The rows that a read returns: the rows that it selects, cut at its limit.
pub open spec fn returned(t: Table, st: StatementView) -> Seq<RowModel> {
    first(selected(t, st), limit_of(st))
}

/// What the store answers to a read that it takes: the fields asked for,
/// of each row returned.
pub open spec fn answer(t: Table, st: StatementView) -> Seq<Seq<Option<ValueView>>> {
    returned(t, st).map_values(|r: RowModel| cells(r, fields_of(st)))
}

/// Table `after` is table `before` after the columns `sets` were written to
/// the row of this key: in order, with that row holding what it held and
/// then `sets`, and every other row as it was.
pub open spec fn written(t: Table, after: Table, sets: Pairs, uid: Seq<u8>, id: Seq<u8>) -> bool {
    &&& ordered(after)
    &&& row_of(after, uid, id) == Some(
        put_all(
            match row_of(t, uid, id) {
                Some(cols) => cols,
                None => Seq::empty(),
            },
            sets,
        ),
    )
    &&& forall|u: Seq<u8>, i: Seq<u8>|
        (u != uid || i != id) ==> #[trigger] row_of(after, u, i) == row_of(t, u, i)
}

/// Two byte strings of one length that spell the same number are the same.
pub proof fn lemma_be_value_injective(a: Seq<u8>, b: Seq<u8>)
    requires
        a.len() == b.len(),
        be_value(a) == be_value(b),
    ensures
        a == b,
    decreases a.len(),
{
    if a.len() > 0 {
        lemma_be_value_injective(a.drop_last(), b.drop_last());
        assert(a =~= a.drop_last().push(a.last()));
        assert(b =~= b.drop_last().push(b.last()));
    } else {
        assert(a =~= b);
    }
}

/// In an ordered table a key stands at one place only.
pub proof fn lemma_place_unique(t: Table, k: int)
    requires
        ordered(t),
        0 <= k < t.len(),
    ensures
        holds(t, t[k].uid, t[k].id),
        place(t, t[k].uid, t[k].id) == k,
        row_of(t, t[k].uid, t[k].id) == Some(t[k].cols),
{
    let p = place(t, t[k].uid, t[k].id);
    assert(t[p].uid == t[k].uid && t[p].id == t[k].id);
    if p < k {
        assert(before(t[p], t[k]));
    } else if k < p {
        assert(before(t[k], t[p]));
    }
}

/// A read by key selects the row with that key and no other.
pub proof fn lemma_select_one(t: Table, fields: Seq<Seq<char>>, uid: Seq<u8>, id: Seq<u8>)
    requires
        ordered(t),
    ensures
        selected(t, StatementView::SelectOne { fields, uid, id }) == if holds(t, uid, id) {
            seq![t[place(t, uid, id)]]
        } else {
            Seq::empty()
        },
    decreases t.len(),
{
    let st = StatementView::SelectOne { fields, uid, id };
    if t.len() > 0 {
        let front = t.drop_last();
        let n = t.len() - 1;
        assert(ordered(front)) by {
            assert forall|i: int| 0 <= i < front.len() implies (#[trigger] front[i]).uid.len() == 12
                && front[i].id.len() == 12 && distinct(front[i].cols) by {
                assert(front[i] == t[i]);
            }
            assert forall|i: int, j: int| 0 <= i < j < front.len() implies before(
                front[i],
                front[j],
            ) by {
                assert(before(t[i], t[j]));
            }
        }
        lemma_select_one(front, fields, uid, id);
        if chosen(st, t.last()) {
            lemma_place_unique(t, n);
            if holds(front, uid, id) {
                let p = place(front, uid, id);
                assert(front[p] == t[p]);
                assert(before(t[p], t[n]));
            }
            assert(selected(t, st) =~= seq![t[n]]);
        } else {
            if holds(t, uid, id) {
                let p = place(t, uid, id);
                assert(front[p] == t[p]);
                lemma_place_unique(front, p);
                lemma_place_unique(t, p);
            } else if holds(front, uid, id) {
                let p = place(front, uid, id);
                assert(front[p] == t[p]);
            }
        }
    }
}

/// The front of an ordered table is ordered.
pub proof fn lemma_front_ordered(t: Table)
    requires
        ordered(t),
        t.len() > 0,
    ensures
        ordered(t.drop_last()),
{
    let front = t.drop_last();
    assert forall|i: int| 0 <= i < front.len() implies (#[trigger] front[i]).uid.len() == 12
        && front[i].id.len() == 12 && distinct(front[i].cols) by {
        assert(front[i] == t[i]);
    }
    assert forall|i: int, j: int| 0 <= i < j < front.len() implies before(front[i], front[j]) by {
        assert(before(t[i], t[j]));
    }
}

/// The rows that a read selects are rows of the table that the read
/// chooses, all of them, and they stand in the table's order.
pub proof fn lemma_selected(t: Table, st: StatementView)
    requires
        ordered(t),
    ensures
        forall|i: int|
            0 <= i < selected(t, st).len() ==> chosen(st, #[trigger] selected(t, st)[i])
                && t.contains(selected(t, st)[i]),
        forall|i: int, j: int|
            0 <= i < j < selected(t, st).len() ==> before(selected(t, st)[i], selected(t, st)[j]),
        forall|k: int|
            0 <= k < t.len() && chosen(st, #[trigger] t[k]) ==> selected(t, st).contains(t[k]),
    decreases t.len(),
{
    let all = selected(t, st);
    if t.len() > 0 {
        let front = t.drop_last();
        let last = t.last();
        let n = t.len() - 1;
        let part = selected(front, st);
        lemma_front_ordered(t);
        lemma_selected(front, st);
        assert forall|i: int| 0 <= i < part.len() implies t.contains(#[trigger] part[i]) && before(
            part[i],
            last,
        ) by {
            let k = choose|k: int| 0 <= k < front.len() && front[k] == part[i];
            assert(t[k] == part[i]);
            assert(before(t[k], t[n]));
        }
        assert forall|i: int| 0 <= i < all.len() implies chosen(st, #[trigger] all[i])
            && t.contains(all[i]) by {
            if i < part.len() {
                assert(all[i] == part[i]);
            } else {
                assert(all[i] == t[n]);
            }
        }
        assert forall|i: int, j: int| 0 <= i < j < all.len() implies before(all[i], all[j]) by {
            if j < part.len() {
                assert(all[i] == part[i] && all[j] == part[j]);
            } else {
                assert(all[i] == part[i]);
            }
        }
        assert forall|k: int| 0 <= k < t.len() && chosen(st, #[trigger] t[k]) implies all.contains(
            t[k],
        ) by {
            if k < n {
                assert(front[k] == t[k]);
                let i = choose|i: int| 0 <= i < part.len() && part[i] == front[k];
                assert(all[i] == t[k]);
            } else {
                assert(all[all.len() - 1] == t[k]);
            }
        }
    }
}

/// What the keys find in the front of an ordered table: what they find in
/// the table, but for the key of the last row, which finds nothing.
pub proof fn lemma_front_rows(t: Table, uid: Seq<u8>, id: Seq<u8>)
    requires
        ordered(t),
        t.len() > 0,
    ensures
        row_of(t.drop_last(), uid, id) == if uid == t.last().uid && id == t.last().id {
            None
        } else {
            row_of(t, uid, id)
        },
{
    let front = t.drop_last();
    let n = t.len() - 1;
    lemma_front_ordered(t);
    lemma_place_unique(t, n);
    if holds(front, uid, id) {
        let p = place(front, uid, id);
        assert(front[p] == t[p]);
        assert(before(t[p], t[n]));
        lemma_place_unique(front, p);
        lemma_place_unique(t, p);
    } else if holds(t, uid, id) {
        let p = place(t, uid, id);
        if p < n {
            assert(front[p] == t[p]);
        }
    }
}

/// Two ordered tables in which every key finds the same are the same table.
pub proof fn lemma_same_rows(a: Table, b: Table)
    requires
        ordered(a),
        ordered(b),
        forall|u: Seq<u8>, i: Seq<u8>| #[trigger] row_of(a, u, i) == row_of(b, u, i),
    ensures
        a == b,
    decreases a.len(),
{
    if a.len() == 0 {
        if b.len() > 0 {
            lemma_place_unique(b, 0);
            assert(row_of(a, b[0].uid, b[0].id) == row_of(b, b[0].uid, b[0].id));
        }
        assert(a =~= b);
    } else {
        let n = a.len() - 1;
        let last = a.last();
        lemma_place_unique(a, n);
        assert(row_of(a, last.uid, last.id) == row_of(b, last.uid, last.id));
        let p = place(b, last.uid, last.id);
        lemma_place_unique(b, p);
        if p < b.len() - 1 {
            let other = b.last();
            lemma_place_unique(b, b.len() - 1);
            assert(before(b[p], other));
            assert(row_of(a, other.uid, other.id) == row_of(b, other.uid, other.id));
            let r = place(a, other.uid, other.id);
            lemma_place_unique(a, r);
            if r < n {
                assert(before(a[r], a[n]));
            }
        }
        assert(b.last().uid == last.uid && b.last().id == last.id && b.last().cols == last.cols);
        assert(b.last() == last);
        lemma_front_ordered(a);
        lemma_front_ordered(b);
        assert forall|u: Seq<u8>, i: Seq<u8>| #[trigger] row_of(a.drop_last(), u, i) == row_of(
            b.drop_last(),
            u,
            i,
        ) by {
            lemma_front_rows(a, u, i);
            lemma_front_rows(b, u, i);
            assert(row_of(a, u, i) == row_of(b, u, i));
        }
        lemma_same_rows(a.drop_last(), b.drop_last());
        assert(a =~= a.drop_last().push(last));
        assert(b =~= b.drop_last().push(last));
    }
}

/// Two reads that choose the same rows select the same rows.
pub proof fn lemma_selected_same(t: Table, a: StatementView, b: StatementView)
    requires
        forall|row: RowModel| chosen(a, row) == chosen(b, row),
    ensures
        selected(t, a) == selected(t, b),
    decreases t.len(),
{
    if t.len() > 0 {
        lemma_selected_same(t.drop_last(), a, b);
    }
}

/// Reading a longer table selects what reading its front selects, then what
/// reading its back selects.
pub proof fn lemma_selected_add(a: Table, b: Table, st: StatementView)
    ensures
        selected(a + b, st) == selected(a, st) + selected(b, st),
    decreases b.len(),
{
    if b.len() == 0 {
        assert(a + b =~= a);
        assert(selected(a, st) + selected(b, st) =~= selected(a, st));
    } else {
        lemma_selected_add(a, b.drop_last(), st);
        assert((a + b).drop_last() =~= a + b.drop_last());
        assert((a + b).last() == b.last());
        assert(selected(a + b, st) =~= selected(a, st) + selected(b, st));
    }
}

/// Where one row of an ordered table gets other columns, every other key
/// finds what it found before.
proof fn lemma_written_rest(t: Table, after: Table, k: int)
    requires
        ordered(t),
        ordered(after),
        0 <= k < t.len(),
        after.len() == t.len(),
        after[k].uid == t[k].uid,
        after[k].id == t[k].id,
        forall|j: int| 0 <= j < t.len() && j != k ==> after[j] == t[j],
    ensures
        forall|u: Seq<u8>, i: Seq<u8>|
            (u != t[k].uid || i != t[k].id) ==> #[trigger] row_of(after, u, i) == row_of(t, u, i),
{
    assert forall|u: Seq<u8>, i: Seq<u8>| (u != t[k].uid || i != t[k].id) implies #[trigger] row_of(
        after,
        u,
        i,
    ) == row_of(t, u, i) by {
        if holds(t, u, i) {
            let p = place(t, u, i);
            lemma_place_unique(t, p);
            assert(after[p] == t[p]);
            lemma_place_unique(after, p);
        } else if holds(after, u, i) {
            let p = place(after, u, i);
            assert(after[p] == t[p]);
        }
    }
}

/// A row put where it belongs in an ordered table leaves the table ordered,
/// is found under its key, and leaves every other key as it was.
proof fn lemma_insert_ordered(t: Table, k: int, fresh: RowModel)
    requires
        ordered(t),
        0 <= k <= t.len(),
        fresh.uid.len() == 12,
        fresh.id.len() == 12,
        distinct(fresh.cols),
        !holds(t, fresh.uid, fresh.id),
        forall|j: int|
            0 <= j < k ==> before(
                #[trigger] t[j],
                RowModel { uid: fresh.uid, id: fresh.id, cols: Seq::empty() },
            ),
        forall|j: int|
            k <= j < t.len() ==> before(
                RowModel { uid: fresh.uid, id: fresh.id, cols: Seq::empty() },
                #[trigger] t[j],
            ),
    ensures
        ordered(t.insert(k, fresh)),
        forall|u: Seq<u8>, i: Seq<u8>|
            (u != fresh.uid || i != fresh.id) ==> #[trigger] row_of(t.insert(k, fresh), u, i)
                == row_of(t, u, i),
{
    let after = t.insert(k, fresh);
    assert forall|a: int, b: int| 0 <= a < b < after.len() implies before(after[a], after[b]) by {
        if b < k {
            assert(before(t[a], t[b]));
        } else if b == k {
            assert(before(t[a], RowModel { uid: fresh.uid, id: fresh.id, cols: Seq::empty() }));
        } else if a < k {
            assert(before(t[a], t[b - 1]));
        } else if a == k {
            assert(before(RowModel { uid: fresh.uid, id: fresh.id, cols: Seq::empty() }, t[b - 1]));
        } else {
            assert(before(t[a - 1], t[b - 1]));
        }
    }
    assert forall|j: int| 0 <= j < after.len() implies (#[trigger] after[j]).uid.len() == 12
        && after[j].id.len() == 12 && distinct(after[j].cols) by {
        if j < k {
            assert(after[j] == t[j]);
        } else if j > k {
            assert(after[j] == t[j - 1]);
        }
    }
    assert forall|u: Seq<u8>, i: Seq<u8>| (u != fresh.uid || i != fresh.id) implies #[trigger] row_of(
        after,
        u,
        i,
    ) == row_of(t, u, i) by {
        if holds(t, u, i) {
            let p = place(t, u, i);
            lemma_place_unique(t, p);
            let q = if p < k {
                p
            } else {
                p + 1
            };
            assert(after[q] == t[p]);
            lemma_place_unique(after, q);
        } else if holds(after, u, i) {
            let q = place(after, u, i);
            let p = if q < k {
                q
            } else {
                q - 1
            };
            assert(after[q] == t[p]);
        }
    }
}

/// What the store says of a statement that it does not take.
pub const REFUSED: &'static str = "statement refused";

/// `e` is the failure of a statement that the store did not take.
pub open spec fn is_refusal(e: Error) -> bool {
    e matches Error::Storage(msg) && msg@ == REFUSED@
}

/// A row in the store.
#[derive(Debug)]
struct StoredRow {
    uid: Id,
    id: Id,
    cols: ColumnsMap,
}

impl View for StoredRow {
    type V = RowModel;

    closed spec fn view(&self) -> RowModel {
        RowModel { uid: self.uid@, id: self.id@, cols: self.cols@ }
    }
}

/// A row store in memory. It holds one table and keeps it in order, so that
/// a listing reads the rows of an owner from the latest to the earliest.
#[derive(Debug)]
pub struct MemoryStore {
    rows: Vec<StoredRow>,
}

impl View for MemoryStore {
    type V = Table;

    closed spec fn view(&self) -> Table {
        self.rows@.map_values(|r: StoredRow| r@)
    }
}

/// The views of the rows of an answer.
pub open spec fn rows_view(rows: Seq<Vec<Option<Value>>>) -> Seq<Seq<Option<ValueView>>> {
    rows.map_values(|r: Vec<Option<Value>>| row_view(r@))
}

fn settable_exec(name: &str, value: &Value) -> (r: bool)
    ensures
        r == settable(name@, value@),
{
    if name.eq("status") || name.eq("action") {
        match value {
            Value::TinyInt(_) => true,
            Value::Empty => true,
            _ => false,
        }
    } else if name.eq("gid") || name.eq("payload") {
        match value {
            Value::Blob(_) => true,
            Value::Empty => true,
            _ => false,
        }
    } else if name.eq("ip") || name.eq("error") {
        match value {
            Value::Text(_) => true,
            Value::Empty => true,
            _ => false,
        }
    } else if name.eq("tokens") {
        match value {
            Value::Int(_) => true,
            Value::Empty => true,
            _ => false,
        }
    } else {
        false
    }
}

fn all_valid_exec(fields: &Vec<String>) -> (r: bool)
    ensures
        r == all_valid(fields.deep_view()),
{
    let all = Log::fields();
    let mut i: usize = 0;
    while i < fields.len()
        invariant
            i <= fields.len(),
            all.deep_view() == all_fields(),
            forall|j: int| 0 <= j < i ==> is_field(#[trigger] fields.deep_view()[j]),
        decreases fields.len() - i,
    {
        if !contains(&all, fields[i].as_str()) {
            assert(!is_field(fields.deep_view()[i as int]));
            return false;
        }
        i += 1;
    }
    true
}

fn all_settable(cols: &ColumnsMap) -> (r: bool)
    ensures
        r == forall|i: int| 0 <= i < cols@.len() ==> settable((#[trigger] cols@[i]).0, cols@[i].1),
{
    let mut i: usize = 0;
    while i < cols.len()
        invariant
            i <= cols@.len(),
            forall|j: int| 0 <= j < i ==> settable((#[trigger] cols@[j]).0, cols@[j].1),
        decreases cols@.len() - i,
    {
        let (name, value) = cols.entry(i);
        if !settable_exec(name.as_str(), value) {
            assert(!settable(cols@[i as int].0, cols@[i as int].1));
            return false;
        }
        i += 1;
    }
    true
}

fn accepts_exec(st: &Statement) -> (r: bool)
    ensures
        r == accepts(st@),
{
    match st {
        Statement::SelectOne { fields, .. } => fields.len() > 0 && all_valid_exec(fields),
        Statement::Update { cols, .. } => cols.len() > 0 && all_settable(cols),
        Statement::SelectBefore { fields, limit, .. } => fields.len() > 0 && all_valid_exec(fields)
            && *limit > 0,
        Statement::SelectAfter { fields, limit, .. } => fields.len() > 0 && all_valid_exec(fields)
            && *limit > 0,
    }
}

impl StoredRow {
    fn acts_exec(&self, action: i8) -> (r: bool)
        ensures
            r == acts(self@, action),
    {
        match self.cols.get("action") {
            Some(Value::TinyInt(a)) => *a == action,
            _ => false,
        }
    }

    fn acts_any(&self, actions: &Vec<i8>) -> (r: bool)
        ensures
            r == exists|k: int| 0 <= k < actions@.len() && acts(self@, actions@[k]),
    {
        let mut k: usize = 0;
        while k < actions.len()
            invariant
                k <= actions.len(),
                forall|j: int| 0 <= j < k ==> !acts(self@, actions@[j]),
            decreases actions.len() - k,
        {
            if self.acts_exec(actions[k]) {
                assert(0 <= k < actions@.len() && acts(self@, actions@[k as int]));
                return true;
            }
            k += 1;
        }
        false
    }

    fn chosen_exec(&self, st: &Statement) -> (r: bool)
        ensures
            r == chosen(st@, self@),
    {
        match st {
            Statement::SelectOne { uid, id, .. } => self.uid.same(uid) && self.id.same(id),
            Statement::Update { .. } => false,
            Statement::SelectBefore { uid, action, before, .. } => {
                if !self.uid.same(uid) || !self.id.lt(before) {
                    return false;
                }
                match action {
                    Some(a) => self.acts_exec(*a),
                    None => true,
                }
            },
            Statement::SelectAfter { uid, after, actions, .. } => {
                if !self.uid.same(uid) || !after.lt(&self.id) {
                    return false;
                }
                actions.len() == 0 || self.acts_any(actions)
            },
        }
    }

    fn read(&self, fields: &Vec<String>) -> (row: Vec<Option<Value>>)
        ensures
            row_view(row@) == cells(self@, fields.deep_view()),
    {
        let mut row: Vec<Option<Value>> = Vec::with_capacity(fields.len());
        let mut i: usize = 0;
        while i < fields.len()
            invariant
                i <= fields.len(),
                row_view(row@) == cells(self@, fields.deep_view()).take(i as int),
            decreases fields.len() - i,
        {
            let ghost before = row_view(row@);
            let name = fields[i].as_str();
            let value = if name.eq("uid") {
                Some(Value::Blob(self.uid.to_vec()))
            } else if name.eq("id") {
                Some(Value::Blob(self.id.to_vec()))
            } else {
                match self.cols.get(name) {
                    Some(Value::Empty) => None,
                    Some(v) => Some(v.clone()),
                    None => None,
                }
            };
            assert(match value {
                Some(x) => Some(x@),
                None => None,
            } == cell(self@, fields.deep_view()[i as int]));
            row.push(value);
            assert(row_view(row@) =~= before.push(cell(self@, fields.deep_view()[i as int])));
            assert(before.push(cell(self@, fields.deep_view()[i as int])) =~= cells(
                self@,
                fields.deep_view(),
            ).take(i + 1));
            i += 1;
        }
        assert(cells(self@, fields.deep_view()).take(fields@.len() as int) =~= cells(
            self@,
            fields.deep_view(),
        ));
        row
    }

    fn stands_before(&self, uid: &Id, id: &Id) -> (r: bool)
        ensures
            r == before(self@, RowModel { uid: uid@, id: id@, cols: Seq::empty() }),
    {
        if id.lt(&self.id) {
            true
        } else if self.id.lt(id) {
            false
        } else {
            uid.lt(&self.uid)
        }
    }
}

/// Of two rows with keys of twelve bytes, one stands before the other
/// unless they have the same key.
pub proof fn lemma_before_total(a: RowModel, b: RowModel)
    requires
        a.uid.len() == b.uid.len(),
        a.id.len() == b.id.len(),
    ensures
        before(a, b) || before(b, a) || (a.uid == b.uid && a.id == b.id),
{
    if be_value(a.id) == be_value(b.id) && be_value(a.uid) == be_value(b.uid) {
        lemma_be_value_injective(a.id, b.id);
        lemma_be_value_injective(a.uid, b.uid);
    }
}

impl MemoryStore {
    /// The table is in order.
    #[verifier::type_invariant]
    pub open spec fn in_order(&self) -> bool {
        ordered(self@)
    }

    /// An empty store.
    pub fn new() -> (db: MemoryStore)
        ensures
            db@.len() == 0,
    {
        MemoryStore { rows: Vec::new() }
    }

    /// The number of rows.
    pub fn len(&self) -> (n: usize)
        ensures
            n == self@.len(),
    {
        self.rows.len()
    }

    /// The place of the row with this key.
    fn index_of(&self, uid: &Id, id: &Id) -> (at: Option<usize>)
        ensures
            at is Some <==> holds(self@, uid@, id@),
            at matches Some(k) ==> k < self@.len() && self@[k as int].uid == uid@ && self@[k as int].id
                == id@,
    {
        let mut k: usize = 0;
        while k < self.rows.len()
            invariant
                k <= self.rows.len(),
                forall|j: int| 0 <= j < k ==> !(self@[j].uid == uid@ && self@[j].id == id@),
            decreases self.rows.len() - k,
        {
            if self.rows[k].uid.same(uid) && self.rows[k].id.same(id) {
                assert(self@[k as int].uid == uid@ && self@[k as int].id == id@);
                return Some(k);
            }
            k += 1;
        }
        None
    }

    /// The place at which a row with this key, which the table does not hold,
    /// belongs.
    fn slot_for(&self, uid: &Id, id: &Id) -> (k: usize)
        requires
            !holds(self@, uid@, id@),
        ensures
            k <= self@.len(),
            forall|j: int|
                0 <= j < k ==> before(
                    #[trigger] self@[j],
                    RowModel { uid: uid@, id: id@, cols: Seq::empty() },
                ),
            forall|j: int|
                k <= j < self@.len() ==> before(
                    RowModel { uid: uid@, id: id@, cols: Seq::empty() },
                    #[trigger] self@[j],
                ),
    {
        proof {
            use_type_invariant(self);
        }
        let ghost fresh = RowModel { uid: uid@, id: id@, cols: Seq::empty() };
        let mut k: usize = 0;
        while k < self.rows.len()
            invariant
                k <= self.rows.len(),
                ordered(self@),
                !holds(self@, uid@, id@),
                fresh == (RowModel { uid: uid@, id: id@, cols: Seq::empty() }),
                forall|j: int| 0 <= j < k ==> before(#[trigger] self@[j], fresh),
            decreases self.rows.len() - k,
        {
            assert(self@[k as int] == self.rows@[k as int]@);
            if !self.rows[k].stands_before(uid, id) {
                proof {
                    lemma_before_total(self@[k as int], fresh);
                    assert(before(fresh, self@[k as int]));
                    assert forall|j: int| k <= j < self@.len() implies before(
                        fresh,
                        #[trigger] self@[j],
                    ) by {
                        if j > k {
                            assert(before(self@[k as int], self@[j]));
                        }
                    }
                }
                return k;
            }
            k += 1;
        }
        k
    }

    /// Answers a read. Any other statement, and a read that the store does
    /// not take, is refused.
    pub fn query(&self, st: &Statement) -> (r: Result<Vec<Vec<Option<Value>>>, Error>)
        ensures
            match r {
                Ok(rows) => accepts(st@) && !(st@ is Update) && rows_view(rows@) == answer(
                    self@,
                    st@,
                ),
                Err(e) => (!accepts(st@) || st@ is Update) && is_refusal(e),
            },
    {
        if !accepts_exec(st) {
            return Err(Error::Storage(String::from_str(REFUSED)));
        }
        let (fields, limit): (&Vec<String>, usize) = match st {
            Statement::SelectOne { fields, .. } => (fields, 1usize),
            Statement::SelectBefore { fields, limit, .. } => (fields, *limit as usize),
            Statement::SelectAfter { fields, limit, .. } => (fields, *limit as usize),
            Statement::Update { .. } => {
                return Err(Error::Storage(String::from_str(REFUSED)));
            },
        };
        let ghost t = self@;
        let ghost want = fields_of(st@);
        let mut out: Vec<Vec<Option<Value>>> = Vec::new();
        let ghost mut picked: Seq<RowModel> = Seq::empty();
        let mut i: usize = 0;
        while i < self.rows.len() && out.len() < limit
            invariant
                i <= self.rows.len(),
                t == self@,
                want == fields_of(st@),
                want == fields.deep_view(),
                out@.len() <= limit,
                out@.len() == picked.len(),
                picked == selected(t.take(i as int), st@),
                rows_view(out@) == picked.map_values(|r: RowModel| cells(r, want)),
            decreases self.rows.len() - i,
        {
            let ghost shown = rows_view(out@);
            proof {
                assert(t.take(i + 1).drop_last() =~= t.take(i as int));
                assert(t.take(i + 1).last() == t[i as int]);
                assert(t[i as int] == self.rows@[i as int]@);
            }
            if self.rows[i].chosen_exec(st) {
                let row = self.rows[i].read(fields);
                out.push(row);
                proof {
                    let grown = picked.push(t[i as int]);
                    assert(rows_view(out@) =~= shown.push(cells(t[i as int], want)));
                    assert(shown.push(cells(t[i as int], want)) =~= grown.map_values(
                        |r: RowModel| cells(r, want),
                    ));
                    picked = grown;
                }
            }
            i += 1;
        }
        proof {
            assert(limit == limit_of(st@));
            let all = selected(t, st@);
            assert(t =~= t.take(i as int) + t.skip(i as int));
            lemma_selected_add(t.take(i as int), t.skip(i as int), st@);
            if i == self.rows.len() {
                assert(t.take(i as int) =~= t);
            } else {
                assert(all =~= picked + selected(t.skip(i as int), st@));
                assert(first(all, limit as int) =~= picked);
            }
            assert(first(all, limit as int) == picked);
        }
        Ok(out)
    }

    /// Carries out a statement. A write sets its columns in the row of its
    /// key and makes the row where there is none; it answers with no rows.
    /// A read leaves the table as it is. A statement that the store does not
    /// take is refused and changes nothing.
    pub fn execute(&mut self, st: &Statement) -> (r: Result<Vec<Vec<Option<Value>>>, Error>)
        ensures
            ordered(final(self)@),
            match r {
                Ok(rows) => accepts(st@) && match st@ {
                    StatementView::Update { cols, uid, id } => rows@.len() == 0 && written(
                        old(self)@,
                        final(self)@,
                        cols,
                        uid,
                        id,
                    ),
                    _ => final(self)@ == old(self)@ && rows_view(rows@) == answer(old(self)@, st@),
                },
                Err(e) => !accepts(st@) && final(self)@ == old(self)@ && is_refusal(e),
            },
    {
        proof {
            use_type_invariant(&*self);
        }
        match st {
            Statement::Update { cols, uid, id } => {
                if !accepts_exec(st) {
                    return Err(Error::Storage(String::from_str(REFUSED)));
                }
                let ghost t = self@;
                let at = self.index_of(uid, id);
                match at {
                    Some(k) => {
                        let mut row = self.rows[k].cols.clone();
                        row.set_all(cols);
                        proof {
                            use_type_invariant(&row);
                            lemma_place_unique(t, k as int);
                        }
                        let mut rows: Vec<StoredRow> = Vec::new();
                        core::mem::swap(&mut self.rows, &mut rows);
                        rows.set(k, StoredRow { uid: *uid, id: *id, cols: row });
                        let ghost after = rows@.map_values(|r: StoredRow| r@);
                        proof {
                            assert(after =~= t.update(
                                k as int,
                                RowModel { uid: uid@, id: id@, cols: row@ },
                            ));
                            assert forall|a: int, b: int|
                                0 <= a < b < after.len() implies before(after[a], after[b]) by {
                                assert(before(t[a], t[b]));
                            }
                            assert forall|j: int| 0 <= j < after.len() implies (
                            #[trigger] after[j]).uid.len() == 12 && after[j].id.len() == 12
                                && distinct(after[j].cols) by {
                                if j != k {
                                    assert(after[j] == t[j]);
                                }
                            }
                            lemma_place_unique(after, k as int);
                            lemma_written_rest(t, after, k as int);
                        }
                        self.rows = rows;
                    },
                    None => {
                        let k = self.slot_for(uid, id);
                        let mut row = ColumnsMap::new();
                        assert(row@ =~= Seq::empty());
                        row.set_all(cols);
                        proof {
                            use_type_invariant(&row);
                        }
                        let mut rows: Vec<StoredRow> = Vec::new();
                        core::mem::swap(&mut self.rows, &mut rows);
                        rows.insert(k, StoredRow { uid: *uid, id: *id, cols: row });
                        let ghost after = rows@.map_values(|r: StoredRow| r@);
                        proof {
                            let fresh = RowModel { uid: uid@, id: id@, cols: row@ };
                            assert(after =~= t.insert(k as int, fresh));
                            lemma_insert_ordered(t, k as int, fresh);
                            lemma_place_unique(after, k as int);
                            assert(row@ == put_all(Seq::empty(), cols@));
                        }
                        self.rows = rows;
                    },
                }
                Ok(Vec::new())
            },
            _ => self.query(st),
        }
    }
}

} // verus!
