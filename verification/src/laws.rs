//! What holds of the operations taken together, over every table and every
//! input.

use vstd::prelude::*;
use crate::action::{action_name, code_of, first_slot, is_action, ACTIONS, ACTIONS_LEN};
use crate::api::created;
use crate::columns::{
    distinct, find, is_set, lemma_put_all, lemma_slot_unique, put_all, Pairs, ValueView,
};
use crate::entries::{
    action_of, frozen, got, lemma_fetched, listed, recent_plan, status_of,
};
use crate::id::{
    be_value, floor_bytes, lemma_floor, lemma_secs_order, recent_start, secs_of, RECENT_SECS,
};
use crate::log::{
    blank, lemma_projection_mandatory, projection, zero_id, LogView, PENDING,
};
use crate::statement::StatementView;
use crate::store::{
    before, cells, chosen, holds, lemma_front_ordered, lemma_same_rows, lemma_selected,
    lemma_selected_same, ordered, place, returned, row_of, selected, written, RowModel, Table,
};

verus! {

/// The names of the fields differ from each other.
pub proof fn lemma_names_differ()
    ensures
        "uid"@ != "id"@,
        "uid"@ != "action"@,
        "uid"@ != "status"@,
        "id"@ != "action"@,
        "id"@ != "status"@,
        "action"@ != "status"@,
{
    reveal_strlit("uid");
    reveal_strlit("id");
    reveal_strlit("action");
    reveal_strlit("status");
    assert("uid"@.len() == 3 && "id"@.len() == 2 && "action"@.len() == 6);
    assert("action"@[0] != "status"@[0]);
}

/// Every read shows the action and the status of the row, whatever fields
/// were asked for; a read that fetches the key shows the key of the row.
pub proof fn law_mandatory_fields(
    row: RowModel,
    log: LogView,
    requested: Seq<Seq<char>>,
    with_pk: bool,
)
    requires
        row.uid.len() == 12,
        row.id.len() == 12,
    ensures
        got(
            log,
            projection(requested, with_pk),
            cells(row, projection(requested, with_pk)),
        ).action == action_of(row),
        got(
            log,
            projection(requested, with_pk),
            cells(row, projection(requested, with_pk)),
        ).status == status_of(row),
        with_pk ==> got(
            log,
            projection(requested, with_pk),
            cells(row, projection(requested, with_pk)),
        ).uid == row.uid,
        with_pk ==> got(
            log,
            projection(requested, with_pk),
            cells(row, projection(requested, with_pk)),
        ).id == row.id,
{
    let fields = projection(requested, with_pk);
    lemma_projection_mandatory(requested, with_pk);
    lemma_names_differ();
    lemma_fetched(row, fields, "action"@);
    lemma_fetched(row, fields, "status"@);
    if with_pk {
        lemma_fetched(row, fields, "uid"@);
        lemma_fetched(row, fields, "id"@);
    }
}

/// What creating an entry writes: the action and the pending status.
pub proof fn lemma_created(code: i8, gid: Seq<u8>, ip: Seq<char>, payload: Seq<u8>, tokens: i32)
    ensures
        distinct(created(code, gid, ip, payload, tokens)),
        find(created(code, gid, ip, payload, tokens), "action"@) == Some(ValueView::TinyInt(code)),
        find(created(code, gid, ip, payload, tokens), "status"@) == Some(
            ValueView::TinyInt(PENDING),
        ),
{
    reveal_strlit("action");
    reveal_strlit("status");
    reveal_strlit("gid");
    reveal_strlit("ip");
    reveal_strlit("payload");
    reveal_strlit("tokens");
    assert("action"@[0] != "status"@[0]);
    assert("action"@[0] != "tokens"@[0]);
    assert("status"@[0] != "tokens"@[0]);
    let cols = created(code, gid, ip, payload, tokens);
    assert(cols[0].0 == "action"@ && cols[1].0 == "status"@ && cols[2].0 == "gid"@ && cols[3].0
        == "ip"@ && cols[4].0 == "payload"@ && cols[5].0 == "tokens"@);
    lemma_slot_unique(cols, 0);
    lemma_slot_unique(cols, 1);
}

/// After an entry was created, reading it shows a pending entry with the
/// action, the owner and the identifier that it was created with, whatever
/// fields are asked for and whatever the table held before.
pub proof fn law_create_then_get(
    t: Table,
    after: Table,
    code: i8,
    gid: Seq<u8>,
    ip: Seq<char>,
    payload: Seq<u8>,
    tokens: i32,
    uid: Seq<u8>,
    id: Seq<u8>,
    requested: Seq<Seq<char>>,
)
    requires
        ordered(t),
        written(t, after, created(code, gid, ip, payload, tokens), uid, id),
    ensures
        holds(after, uid, id),
        got(
            blank(uid, id),
            projection(requested, false),
            cells(after[place(after, uid, id)], projection(requested, false)),
        ).status == PENDING,
        got(
            blank(uid, id),
            projection(requested, false),
            cells(after[place(after, uid, id)], projection(requested, false)),
        ).action == code,
        got(
            blank(uid, id),
            projection(requested, false),
            cells(after[place(after, uid, id)], projection(requested, false)),
        ).uid == uid,
        got(
            blank(uid, id),
            projection(requested, false),
            cells(after[place(after, uid, id)], projection(requested, false)),
        ).id == id,
{
    let sets = created(code, gid, ip, payload, tokens);
    let row = after[place(after, uid, id)];
    let fields = projection(requested, false);
    let held: Pairs = match row_of(t, uid, id) {
        Some(cols) => cols,
        None => Seq::empty(),
    };
    assert(distinct(held)) by {
        if holds(t, uid, id) {
            assert(distinct(t[place(t, uid, id)].cols));
        }
    }
    lemma_created(code, gid, ip, payload, tokens);
    lemma_put_all(held, sets, "action"@);
    lemma_put_all(held, sets, "status"@);
    assert(is_set(sets, "action"@) && is_set(sets, "status"@)) by {
        assert(sets[0].0 == "action"@ && sets[1].0 == "status"@);
    }
    lemma_names_differ();
    law_mandatory_fields(row, blank(uid, id), requested, false);
    lemma_fetched(row, fields, "uid"@);
    lemma_fetched(row, fields, "id"@);
}

/// A write that sets the status to an outcome freezes the entry: from then
/// on, the table holds it with an outcome.
pub proof fn law_outcome_freezes(
    t: Table,
    after: Table,
    sets: Pairs,
    uid: Seq<u8>,
    id: Seq<u8>,
    status: i8,
)
    requires
        ordered(t),
        distinct(sets),
        written(t, after, sets, uid, id),
        find(sets, "status"@) == Some(ValueView::TinyInt(status)),
        status != PENDING,
    ensures
        frozen(after, uid, id),
{
    let held: Pairs = match row_of(t, uid, id) {
        Some(cols) => cols,
        None => Seq::empty(),
    };
    assert(distinct(held)) by {
        if holds(t, uid, id) {
            assert(distinct(t[place(t, uid, id)].cols));
        }
    }
    lemma_put_all(held, sets, "status"@);
    lemma_names_differ();
}

/// A write merges its columns into the row: afterwards a column holds what
/// the write set it to, and what the row held before where the write did
/// not name it.
pub proof fn law_write_merges(
    t: Table,
    after: Table,
    sets: Pairs,
    uid: Seq<u8>,
    id: Seq<u8>,
    name: Seq<char>,
)
    requires
        ordered(t),
        distinct(sets),
        written(t, after, sets, uid, id),
    ensures
        holds(after, uid, id),
        find(after[place(after, uid, id)].cols, name) == if is_set(sets, name) {
            find(sets, name)
        } else {
            match row_of(t, uid, id) {
                Some(cols) => find(cols, name),
                None => None,
            }
        },
{
    let held: Pairs = match row_of(t, uid, id) {
        Some(cols) => cols,
        None => Seq::empty(),
    };
    assert(distinct(held)) by {
        if holds(t, uid, id) {
            assert(distinct(t[place(t, uid, id)].cols));
        }
    }
    lemma_put_all(held, sets, name);
}

/// The name of the code of an action is that action.
pub proof fn law_code_then_name(name: Seq<char>)
    requires
        is_action(name),
    ensures
        first_slot(name, code_of(name)),
        action_name(code_of(name)) == name,
{
    let j = choose|j: int| 0 <= j < ACTIONS_LEN as int && ACTIONS[j]@ == name;
    lemma_first_slot(name, j);
}

/// A name that stands in the table has a first slot.
proof fn lemma_first_slot(name: Seq<char>, j: int)
    requires
        0 <= j < ACTIONS_LEN as int,
        ACTIONS[j]@ == name,
    ensures
        exists|c: int| first_slot(name, c),
    decreases j,
{
    if exists|k: int| 0 <= k < j && ACTIONS[k]@ == name {
        let k = choose|k: int| 0 <= k < j && ACTIONS[k]@ == name;
        lemma_first_slot(name, k);
    } else {
        assert(first_slot(name, j));
    }
}

/// A write that does not set the status leaves a pending entry pending: an
/// entry that the table did not hold, or held without an outcome, has no
/// outcome afterwards.
pub proof fn law_pending_stays(t: Table, after: Table, sets: Pairs, uid: Seq<u8>, id: Seq<u8>)
    requires
        ordered(t),
        distinct(sets),
        written(t, after, sets, uid, id),
        !is_set(sets, "status"@),
        !frozen(t, uid, id),
    ensures
        !frozen(after, uid, id),
{
    let held: Pairs = match row_of(t, uid, id) {
        Some(cols) => cols,
        None => Seq::empty(),
    };
    assert(distinct(held)) by {
        if holds(t, uid, id) {
            assert(distinct(t[place(t, uid, id)].cols));
        }
    }
    lemma_put_all(held, sets, "status"@);
    lemma_names_differ();
}

/// Nothing but a write to its own row changes what an entry records: after
/// a write to another key the entry is frozen exactly if it was.
pub proof fn law_other_rows_keep(
    t: Table,
    after: Table,
    sets: Pairs,
    uid: Seq<u8>,
    id: Seq<u8>,
    other_uid: Seq<u8>,
    other_id: Seq<u8>,
)
    requires
        ordered(t),
        written(t, after, sets, uid, id),
        other_uid != uid || other_id != id,
    ensures
        row_of(after, other_uid, other_id) == row_of(t, other_uid, other_id),
        frozen(after, other_uid, other_id) == frozen(t, other_uid, other_id),
{
    assert(row_of(after, other_uid, other_id) == row_of(t, other_uid, other_id));
    lemma_names_differ();
}

/// A write has one outcome: two tables that both are the table after the
/// same write are the same.
pub proof fn law_written_once(
    t: Table,
    a: Table,
    b: Table,
    sets: Pairs,
    uid: Seq<u8>,
    id: Seq<u8>,
)
    requires
        written(t, a, sets, uid, id),
        written(t, b, sets, uid, id),
    ensures
        a == b,
{
    assert forall|u: Seq<u8>, i: Seq<u8>| #[trigger] row_of(a, u, i) == row_of(b, u, i) by {
        if u == uid && i == id {
        } else {
            assert(row_of(a, u, i) == row_of(t, u, i));
            assert(row_of(b, u, i) == row_of(t, u, i));
        }
    }
    lemma_same_rows(a, b);
}

/// The entries of a listing carry the keys of their rows, so they too come
/// from the latest identifier to the earliest: the identifier of the last
/// entry of a page is the cursor of the next.
pub proof fn law_listed_ids_descend(
    t: Table,
    st: StatementView,
    requested: Seq<Seq<char>>,
    i: int,
    j: int,
)
    requires
        ordered(t),
        st is SelectBefore || st is SelectAfter,
        0 <= i < j < returned(t, st).len(),
    ensures
        listed(returned(t, st), projection(requested, true))[i].id == returned(t, st)[i].id,
        listed(returned(t, st), projection(requested, true))[i].uid == returned(t, st)[i].uid,
        be_value(listed(returned(t, st), projection(requested, true))[i].id) > be_value(
            listed(returned(t, st), projection(requested, true))[j].id,
        ),
{
    let rows = returned(t, st);
    let all = selected(t, st);
    lemma_selected(t, st);
    law_listing_descends(t, st, i, j);
    assert(rows[i] == all[i] && rows[j] == all[j]);
    assert(t.contains(all[i]) && t.contains(all[j]));
    let a = choose|a: int| 0 <= a < t.len() && t[a] == all[i];
    let b = choose|b: int| 0 <= b < t.len() && t[b] == all[j];
    assert(t[a].id.len() == 12 && t[b].id.len() == 12);
    law_mandatory_fields(rows[i], blank(zero_id(), zero_id()), requested, true);
    law_mandatory_fields(rows[j], blank(zero_id(), zero_id()), requested, true);
}

/// The rows of a listing, backward or recent, belong to the owner asked for
/// and come from the latest identifier to the earliest, none twice.
pub proof fn law_listing_descends(t: Table, st: StatementView, i: int, j: int)
    requires
        ordered(t),
        st is SelectBefore || st is SelectAfter,
        0 <= i < j < returned(t, st).len(),
    ensures
        be_value(returned(t, st)[i].id) > be_value(returned(t, st)[j].id),
{
    lemma_selected(t, st);
    let all = selected(t, st);
    assert(returned(t, st)[i] == all[i] && returned(t, st)[j] == all[j]);
    assert(before(all[i], all[j]));
    assert(chosen(st, all[i]) && chosen(st, all[j]));
}

/// The statement of a backward listing below `cursor`.
pub open spec fn page(
    fields: Seq<Seq<char>>,
    uid: Seq<u8>,
    action: Option<i8>,
    cursor: Seq<u8>,
    limit: i32,
) -> StatementView {
    StatementView::SelectBefore { fields, uid, action, before: cursor, limit }
}

/// A backward listing below the identifier of one of its own rows selects
/// the rows behind that row, and nothing else.
pub proof fn lemma_below_row(
    t: Table,
    fields: Seq<Seq<char>>,
    uid: Seq<u8>,
    action: Option<i8>,
    cursor: Seq<u8>,
    limit: i32,
    k: int,
)
    requires
        ordered(t),
        0 <= k < selected(t, page(fields, uid, action, cursor, limit)).len(),
    ensures
        selected(
            t,
            page(
                fields,
                uid,
                action,
                selected(t, page(fields, uid, action, cursor, limit))[k].id,
                limit,
            ),
        ) == selected(t, page(fields, uid, action, cursor, limit)).skip(k + 1),
    decreases t.len(),
{
    let st = page(fields, uid, action, cursor, limit);
    let all = selected(t, st);
    let mark = all[k];
    let next = page(fields, uid, action, mark.id, limit);
    let front = t.drop_last();
    let last = t.last();
    let n = t.len() - 1;
    let part = selected(front, st);
    lemma_front_ordered(t);
    lemma_selected(t, st);
    lemma_selected(front, st);
    lemma_selected(front, next);
    assert(chosen(st, mark));
    if k < part.len() {
        assert(all[k] == part[k]);
        lemma_below_row(front, fields, uid, action, cursor, limit, k);
        let j = choose|j: int| 0 <= j < front.len() && front[j] == part[k];
        assert(t[j] == mark);
        assert(before(t[j], t[n]));
        if chosen(st, last) {
            assert(chosen(next, last));
            assert(selected(t, next) =~= all.skip(k + 1));
        } else {
            assert(!chosen(next, last));
            assert(selected(t, next) =~= all.skip(k + 1));
        }
    } else {
        assert(mark == last);
        assert(!chosen(next, last));
        let below = selected(front, next);
        if below.len() > 0 {
            let j = choose|j: int| 0 <= j < front.len() && front[j] == below[0];
            assert(chosen(next, below[0]));
            assert(t[j] == below[0]);
            assert(before(t[j], t[n]));
        }
        assert(selected(t, next) =~= all.skip(k + 1));
    }
}

/// Paging backward loses nothing and repeats nothing: a page, followed by
/// the page that its last identifier is the cursor of, is the one page of
/// both sizes together.
pub proof fn law_next_page(
    t: Table,
    fields: Seq<Seq<char>>,
    uid: Seq<u8>,
    action: Option<i8>,
    cursor: Seq<u8>,
    size: i32,
    next_size: i32,
)
    requires
        ordered(t),
        size > 0,
        next_size > 0,
        size + next_size <= i32::MAX,
        returned(t, page(fields, uid, action, cursor, size)).len() > 0,
    ensures
        returned(t, page(fields, uid, action, cursor, size)) + returned(
            t,
            page(
                fields,
                uid,
                action,
                returned(t, page(fields, uid, action, cursor, size)).last().id,
                next_size,
            ),
        ) == returned(t, page(fields, uid, action, cursor, (size + next_size) as i32)),
{
    let st = page(fields, uid, action, cursor, size);
    let all = selected(t, st);
    let one = returned(t, st);
    let k = one.len() - 1;
    assert(one.last() == all[k]);
    lemma_below_row(t, fields, uid, action, cursor, size, k);
    let next = page(fields, uid, action, all[k].id, next_size);
    lemma_selected_same(t, next, page(fields, uid, action, all[k].id, size));
    let both = page(fields, uid, action, cursor, (size + next_size) as i32);
    lemma_selected_same(t, both, st);
    assert(one + returned(t, next) =~= returned(t, both));
}

/// A listing of recent entries with no action filter selects, of the rows
/// of the owner, exactly those above the least identifier of the start of
/// the window: every row created after that second, and none created
/// before it.
pub proof fn law_recent_window(
    t: Table,
    uid: Seq<u8>,
    requested: Seq<Seq<char>>,
    now_ms: u64,
    k: int,
)
    requires
        ordered(t),
        now_ms / 1000 >= RECENT_SECS,
        now_ms / 1000 - RECENT_SECS < 0x1_0000_0000,
        0 <= k < t.len(),
        t[k].uid == uid,
    ensures
        selected(t, recent_plan(uid, requested, Seq::empty(), now_ms)).contains(t[k])
            <==> be_value(t[k].id) > be_value(floor_bytes(recent_start(now_ms))),
        secs_of(t[k].id) > now_ms / 1000 - RECENT_SECS ==> selected(
            t,
            recent_plan(uid, requested, Seq::empty(), now_ms),
        ).contains(t[k]),
        secs_of(t[k].id) < now_ms / 1000 - RECENT_SECS ==> !selected(
            t,
            recent_plan(uid, requested, Seq::empty(), now_ms),
        ).contains(t[k]),
{
    let st = recent_plan(uid, requested, Seq::empty(), now_ms);
    let start = recent_start(now_ms);
    let all = selected(t, st);
    lemma_selected(t, st);
    lemma_floor(start, t[k].id);
    lemma_secs_order(t[k].id, floor_bytes(start));
    assert(start == now_ms / 1000 - RECENT_SECS);
    if all.contains(t[k]) {
        let i = choose|i: int| 0 <= i < all.len() && all[i] == t[k];
        assert(chosen(st, all[i]));
    }
}

} // verus!
