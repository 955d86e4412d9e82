//! The statements that the library sends to the row store: what each one
//! asks for, its CQL text, and the values bound to its markers.

use vstd::prelude::*;
use vstd::string::StringExecFns;
use crate::columns::{ColumnsMap, Pairs, Value, ValueView};
use crate::id::Id;
use crate::text::{join, joined};

verus! {

/// One statement for the row store.
#[derive(Debug)]
pub enum Statement {
    /// Reads `fields` of the row of owner `uid` and identifier `id`.
    SelectOne { fields: Vec<String>, uid: Id, id: Id },
    /// Sets the columns of `cols` in the row of owner `uid` and identifier
    /// `id`, and makes the row where there is none.
    Update { cols: ColumnsMap, uid: Id, id: Id },
    /// Reads `fields` of the rows of owner `uid` whose identifier is below
    /// `before`, and whose action is `action` where one is given: at most
    /// `limit` rows, the greatest identifier first.
    SelectBefore { fields: Vec<String>, uid: Id, action: Option<i8>, before: Id, limit: i32 },
    /// Reads `fields` of the rows of owner `uid` whose identifier is above
    /// `after`, and whose action is one of `actions` unless there are none:
    /// at most `limit` rows, the greatest identifier first.
    SelectAfter { fields: Vec<String>, uid: Id, after: Id, actions: Vec<i8>, limit: i32 },
}

/// What a [`Statement`] holds.
pub enum StatementView {
    SelectOne { fields: Seq<Seq<char>>, uid: Seq<u8>, id: Seq<u8> },
    Update { cols: Pairs, uid: Seq<u8>, id: Seq<u8> },
    SelectBefore {
        fields: Seq<Seq<char>>,
        uid: Seq<u8>,
        action: Option<i8>,
        before: Seq<u8>,
        limit: i32,
    },
    SelectAfter {
        fields: Seq<Seq<char>>,
        uid: Seq<u8>,
        after: Seq<u8>,
        actions: Seq<i8>,
        limit: i32,
    },
}

impl View for Statement {
    type V = StatementView;

    open spec fn view(&self) -> StatementView {
        match *self {
            Statement::SelectOne { fields, uid, id } => StatementView::SelectOne {
                fields: fields.deep_view(),
                uid: uid@,
                id: id@,
            },
            Statement::Update { cols, uid, id } => StatementView::Update {
                cols: cols@,
                uid: uid@,
                id: id@,
            },
            Statement::SelectBefore { fields, uid, action, before, limit } => {
                StatementView::SelectBefore {
                    fields: fields.deep_view(),
                    uid: uid@,
                    action,
                    before: before@,
                    limit,
                }
            },
            Statement::SelectAfter { fields, uid, after, actions, limit } => {
                StatementView::SelectAfter {
                    fields: fields.deep_view(),
                    uid: uid@,
                    after: after@,
                    actions: actions@,
                    limit,
                }
            },
        }
    }
}

/// Each name of `cols` followed by `=?`.
pub open spec fn assignments(cols: Pairs) -> Seq<Seq<char>> {
    cols.map_values(|c: (Seq<char>, ValueView)| c.0 + "=?"@)
}

/// `n` markers.
pub open spec fn markers(n: nat) -> Seq<Seq<char>> {
    Seq::new(n, |i: int| "?"@)
}

/// The values of `cols`, in order.
pub open spec fn values_of(cols: Pairs) -> Seq<ValueView> {
    cols.map_values(|c: (Seq<char>, ValueView)| c.1)
}

/// Each action as an 8-bit value.
pub open spec fn action_values(actions: Seq<i8>) -> Seq<ValueView> {
    actions.map_values(|a: i8| ValueView::TinyInt(a))
}

impl StatementView {
    /// The CQL text.
    pub open spec fn text(self) -> Seq<char> {
        match self {
            StatementView::SelectOne { fields, .. } => "SELECT "@ + joined(fields, ","@)
                + " FROM log WHERE uid=? AND id=? LIMIT 1"@,
            StatementView::Update { cols, .. } => "UPDATE log SET "@ + joined(
                assignments(cols),
                ","@,
            ) + " WHERE uid=? AND id=?"@,
            StatementView::SelectBefore { fields, action, .. } => "SELECT "@ + joined(fields, ","@)
                + if action is Some {
                " FROM log WHERE uid=? AND action=? AND id<? LIMIT ? USING TIMEOUT 3s"@
            } else {
                " FROM log WHERE uid=? AND id<? LIMIT ? USING TIMEOUT 3s"@
            },
            StatementView::SelectAfter { fields, actions, .. } => "SELECT "@ + joined(fields, ","@)
                + if actions.len() == 0 {
                " FROM log WHERE uid=? AND id>? LIMIT ? USING TIMEOUT 3s"@
            } else {
                " FROM log WHERE uid=? AND id>? AND action IN ("@ + joined(
                    markers(actions.len()),
                    ","@,
                ) + ") LIMIT ? ALLOW FILTERING USING TIMEOUT 3s"@
            },
        }
    }

    /// The values bound to the markers of the text, in the order of the
    /// markers.
    pub open spec fn params(self) -> Seq<ValueView> {
        match self {
            StatementView::SelectOne { uid, id, .. } => seq![
                ValueView::Blob(uid),
                ValueView::Blob(id),
            ],
            StatementView::Update { cols, uid, id } => values_of(cols) + seq![
                ValueView::Blob(uid),
                ValueView::Blob(id),
            ],
            StatementView::SelectBefore { uid, action, before, limit, .. } => match action {
                Some(a) => seq![
                    ValueView::Blob(uid),
                    ValueView::TinyInt(a),
                    ValueView::Blob(before),
                    ValueView::Int(limit),
                ],
                None => seq![ValueView::Blob(uid), ValueView::Blob(before), ValueView::Int(limit)],
            },
            StatementView::SelectAfter { uid, after, actions, limit, .. } => seq![
                ValueView::Blob(uid),
                ValueView::Blob(after),
            ] + action_values(actions) + seq![ValueView::Int(limit)],
        }
    }
}

/// The views of `values`.
pub open spec fn views(values: Seq<Value>) -> Seq<ValueView> {
    values.map_values(|v: Value| v@)
}

fn select_prefix(fields: &Vec<String>) -> (text: String)
    ensures
        text@ == "SELECT "@ + joined(fields.deep_view(), ","@),
{
    let mut text = String::from_str("SELECT ");
    let list = join(fields, ",");
    text.append(list.as_str());
    text
}

fn marker_list(n: usize) -> (text: String)
    ensures
        text@ == joined(markers(n as nat), ","@),
{
    let mut parts: Vec<String> = Vec::with_capacity(n);
    let mut i: usize = 0;
    while i < n
        invariant
            i <= n,
            parts.deep_view() == markers(i as nat),
        decreases n - i,
    {
        let ghost before = parts.deep_view();
        parts.push(String::from_str("?"));
        assert(parts.deep_view() =~= before.push("?"@));
        assert(before.push("?"@) =~= markers((i + 1) as nat));
        i += 1;
    }
    join(&parts, ",")
}

fn assignment_list(cols: &ColumnsMap) -> (text: String)
    ensures
        text@ == joined(assignments(cols@), ","@),
{
    let mut parts: Vec<String> = Vec::with_capacity(cols.len());
    let mut i: usize = 0;
    while i < cols.len()
        invariant
            i <= cols@.len(),
            parts.deep_view() == assignments(cols@).take(i as int),
        decreases cols@.len() - i,
    {
        let ghost before = parts.deep_view();
        let (name, _) = cols.entry(i);
        let mut part = name.clone();
        part.append("=?");
        parts.push(part);
        assert(parts.deep_view() =~= before.push(cols@[i as int].0 + "=?"@));
        assert(before.push(cols@[i as int].0 + "=?"@) =~= assignments(cols@).take(i + 1));
        i += 1;
    }
    assert(assignments(cols@).take(cols@.len() as int) =~= assignments(cols@));
    join(&parts, ",")
}

impl Statement {
    /// The CQL text of the statement, with a `?` for each parameter.
    pub fn cql(&self) -> (text: String)
        ensures
            text@ == self@.text(),
    {
        match self {
            Statement::SelectOne { fields, .. } => {
                let mut text = select_prefix(fields);
                text.append(" FROM log WHERE uid=? AND id=? LIMIT 1");
                text
            },
            Statement::Update { cols, .. } => {
                let mut text = String::from_str("UPDATE log SET ");
                let list = assignment_list(cols);
                text.append(list.as_str());
                text.append(" WHERE uid=? AND id=?");
                text
            },
            Statement::SelectBefore { fields, action, .. } => {
                let mut text = select_prefix(fields);
                if action.is_some() {
                    text.append(
                        " FROM log WHERE uid=? AND action=? AND id<? LIMIT ? USING TIMEOUT 3s",
                    );
                } else {
                    text.append(" FROM log WHERE uid=? AND id<? LIMIT ? USING TIMEOUT 3s");
                }
                text
            },
            Statement::SelectAfter { fields, actions, .. } => {
                let mut text = select_prefix(fields);
                if actions.len() == 0 {
                    text.append(" FROM log WHERE uid=? AND id>? LIMIT ? USING TIMEOUT 3s");
                } else {
                    text.append(" FROM log WHERE uid=? AND id>? AND action IN (");
                    let list = marker_list(actions.len());
                    text.append(list.as_str());
                    text.append(") LIMIT ? ALLOW FILTERING USING TIMEOUT 3s");
                    assert(text@ =~= self@.text());
                }
                text
            },
        }
    }

    /// The values of the parameters, in the order of the `?` in the text.
    pub fn params(&self) -> (values: Vec<Value>)
        ensures
            views(values@) == self@.params(),
    {
        let mut values: Vec<Value> = Vec::new();
        match self {
            Statement::SelectOne { uid, id, .. } => {
                values.push(Value::Blob(uid.to_vec()));
                values.push(Value::Blob(id.to_vec()));
                assert(views(values@) =~= self@.params());
            },
            Statement::Update { cols, uid, id } => {
                let mut i: usize = 0;
                while i < cols.len()
                    invariant
                        i <= cols@.len(),
                        views(values@) == values_of(cols@).take(i as int),
                    decreases cols@.len() - i,
                {
                    let ghost before = views(values@);
                    let (_, value) = cols.entry(i);
                    values.push(value.clone());
                    assert(views(values@) =~= before.push(cols@[i as int].1));
                    assert(before.push(cols@[i as int].1) =~= values_of(cols@).take(i + 1));
                    i += 1;
                }
                assert(values_of(cols@).take(cols@.len() as int) =~= values_of(cols@));
                values.push(Value::Blob(uid.to_vec()));
                values.push(Value::Blob(id.to_vec()));
                assert(views(values@) =~= self@.params());
            },
            Statement::SelectBefore { uid, action, before, limit, .. } => {
                values.push(Value::Blob(uid.to_vec()));
                match action {
                    Some(a) => {
                        values.push(Value::TinyInt(*a));
                    },
                    None => {},
                }
                values.push(Value::Blob(before.to_vec()));
                values.push(Value::Int(*limit));
                assert(views(values@) =~= self@.params());
            },
            Statement::SelectAfter { uid, after, actions, limit, .. } => {
                values.push(Value::Blob(uid.to_vec()));
                values.push(Value::Blob(after.to_vec()));
                let ghost head = views(values@);
                assert(head =~= seq![ValueView::Blob(uid@), ValueView::Blob(after@)]);
                let mut i: usize = 0;
                while i < actions.len()
                    invariant
                        i <= actions.len(),
                        views(values@) == head + action_values(actions@).take(i as int),
                    decreases actions.len() - i,
                {
                    let ghost before = views(values@);
                    values.push(Value::TinyInt(actions[i]));
                    assert(views(values@) =~= before.push(ValueView::TinyInt(actions@[i as int])));
                    assert(before.push(ValueView::TinyInt(actions@[i as int])) =~= head
                        + action_values(actions@).take(i + 1));
                    i += 1;
                }
                assert(action_values(actions@).take(actions@.len() as int) =~= action_values(
                    actions@,
                ));
                values.push(Value::Int(*limit));
                assert(views(values@) =~= self@.params());
            },
        }
        values
    }
}

} // verus!
