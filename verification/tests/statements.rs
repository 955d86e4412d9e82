use logbase::api::{
    create_statement, list_recently_statement, AppInfo, AppVersion, CreateLogInput,
    ListRecentlyInput, LogOutput, UpdateLogInput,
};
use logbase::columns::{ColumnsMap, Value};
use logbase::error::{Error, ErrorKind};
use logbase::id::Id;
use logbase::log::Log;
use logbase::statement::Statement;
use logbase::store::MemoryStore;
use logbase::text::join;

fn uid() -> Id {
    Id::new([1; 12])
}

fn id() -> Id {
    Id::new([2; 12])
}

#[test]
fn copies_hold_the_same() {
    let mut cols = ColumnsMap::new();
    cols.set("ip", Value::Text("a".to_string()));
    cols.set("tokens", Value::Int(1));
    let copy = cols.clone();
    cols.set("ip", Value::Empty);
    assert_eq!(copy.len(), 2);
    assert_eq!(copy.get("ip"), Some(&Value::Text("a".to_string())));
    assert_eq!(cols.get("ip"), Some(&Value::Empty));
    let mut more = ColumnsMap::new();
    more.set("error", Value::Text("e".to_string()));
    more.set_all(&copy);
    assert_eq!(more.len(), 3);
    assert_eq!(more.entry(0).0, "error");
    assert_eq!(more.entry(2).1, &Value::Int(1));

    let mut doc = Log::default();
    assert_eq!(doc.uid, Id::default());
    doc.ip = "x".to_string();
    doc._fields = vec!["ip".to_string()];
    let twin = doc.clone();
    assert_eq!(twin.ip, "x");
    assert_eq!(twin._fields, vec!["ip"]);
    assert_eq!(twin.status, 0);
}

#[test]
fn a_row_fills_the_columns() {
    let fields = vec!["ip".to_string(), "tokens".to_string(), "ip".to_string()];
    let mut cols = ColumnsMap::new();
    cols.set("status", Value::TinyInt(1));
    let row = vec![Some(Value::Text("a".to_string())), None, Some(Value::Text("b".to_string()))];
    assert_eq!(cols.fill(&row, &fields), Ok(()));
    assert_eq!(cols.len(), 3);
    assert_eq!(cols.get("status"), Some(&Value::TinyInt(1)));
    assert_eq!(cols.get("ip"), Some(&Value::Text("b".to_string())));
    assert_eq!(cols.get("tokens"), Some(&Value::Empty));
    assert_eq!(
        cols.fill(&vec![None], &fields),
        Err(Error::RowShape { expected: 3, found: 1 })
    );
    assert_eq!(cols.len(), 3);

    let mut doc = Log::with_pk(uid(), id());
    doc.tokens = 9;
    doc.error = "kept".to_string();
    doc.fill(&cols);
    assert_eq!(doc.ip, "b");
    assert_eq!(doc.tokens, 0);
    assert_eq!(doc.status, 1);
    assert_eq!(doc.error, "kept");
    assert_eq!(doc.uid, uid());
}

#[test]
fn joining() {
    assert_eq!(join(&vec![], ","), "");
    assert_eq!(join(&vec!["a".to_string()], ","), "a");
    assert_eq!(join(&vec!["a".to_string(), "b".to_string(), String::new()], ", "), "a, b, ");
}

#[test]
fn the_read_of_one_entry() {
    let mut doc = Log::with_pk(uid(), id());
    let st = doc.get_one_statement(vec!["ip".to_string()]).unwrap();
    assert_eq!(st.cql(), "SELECT ip,action,status FROM log WHERE uid=? AND id=? LIMIT 1");
    assert_eq!(st.params(), vec![Value::Blob(vec![1; 12]), Value::Blob(vec![2; 12])]);
    assert_eq!(doc._fields, vec!["ip", "action", "status"]);

    let st = doc.get_one_statement(vec![]).unwrap();
    assert_eq!(
        st.cql(),
        "SELECT uid,id,action,status,gid,ip,payload,tokens,error FROM log WHERE uid=? AND id=? LIMIT 1"
    );
}

#[test]
fn the_write_of_an_entry() {
    let doc = Log::with_pk(uid(), id());
    let mut cols = ColumnsMap::new();
    cols.set("status", Value::TinyInt(1));
    cols.set("error", Value::Text("late".to_string()));
    cols.set("tokens", Value::Int(3));
    cols.set("status", Value::TinyInt(-1));
    let st = doc.upsert_statement(false, cols).unwrap();
    assert_eq!(st.cql(), "UPDATE log SET status=?,error=?,tokens=? WHERE uid=? AND id=?");
    assert_eq!(
        st.params(),
        vec![
            Value::TinyInt(-1),
            Value::Text("late".to_string()),
            Value::Int(3),
            Value::Blob(vec![1; 12]),
            Value::Blob(vec![2; 12]),
        ]
    );
}

#[test]
fn the_write_is_planned_only_for_an_entry_without_outcome() {
    let mut doc = Log::with_pk(uid(), id());
    doc.status = 1;
    let mut cols = ColumnsMap::new();
    cols.set("ip", Value::Text("x".to_string()));
    assert_eq!(doc.upsert_statement(true, cols).unwrap_err(), Error::Frozen);
    let mut cols = ColumnsMap::new();
    cols.set("ip", Value::Text("x".to_string()));
    assert!(doc.upsert_statement(false, cols).is_ok());
    doc.status = 0;
    let mut cols = ColumnsMap::new();
    cols.set("id", Value::Blob(vec![0; 12]));
    assert_eq!(
        doc.upsert_statement(true, cols).unwrap_err(),
        Error::InvalidField("id".to_string())
    );
}

#[test]
fn the_backward_listing() {
    let st = Log::list_statement(uid(), vec![], 20, None, None).unwrap();
    assert_eq!(
        st.cql(),
        "SELECT uid,id,action,status,gid,ip,payload,tokens,error FROM log WHERE uid=? AND id<? LIMIT ? USING TIMEOUT 3s"
    );
    assert_eq!(
        st.params(),
        vec![Value::Blob(vec![1; 12]), Value::Blob(vec![255; 12]), Value::Int(20)]
    );

    let st = Log::list_statement(uid(), vec!["gid".to_string()], 65535, Some(id()), Some(31))
        .unwrap();
    assert_eq!(
        st.cql(),
        "SELECT gid,action,status,uid,id FROM log WHERE uid=? AND action=? AND id<? LIMIT ? USING TIMEOUT 3s"
    );
    assert_eq!(
        st.params(),
        vec![
            Value::Blob(vec![1; 12]),
            Value::TinyInt(31),
            Value::Blob(vec![2; 12]),
            Value::Int(65535),
        ]
    );
}

#[test]
fn the_recent_listing() {
    let now_ms = 1_700_000_000_000u64;
    let mut floor = vec![0u8; 12];
    floor[0..4].copy_from_slice(&(1_700_000_000u32 - 259_200).to_be_bytes());

    let st = Log::list_recently_statement(uid(), vec!["ip".to_string()], vec![], now_ms).unwrap();
    assert_eq!(
        st.cql(),
        "SELECT ip,action,status,uid,id FROM log WHERE uid=? AND id>? LIMIT ? USING TIMEOUT 3s"
    );
    assert_eq!(
        st.params(),
        vec![Value::Blob(vec![1; 12]), Value::Blob(floor.clone()), Value::Int(1000)]
    );

    let st = Log::list_recently_statement(uid(), vec!["ip".to_string()], vec![1, 2, 3], now_ms)
        .unwrap();
    assert_eq!(
        st.cql(),
        "SELECT ip,action,status,uid,id FROM log WHERE uid=? AND id>? AND action IN (?,?,?) LIMIT ? ALLOW FILTERING USING TIMEOUT 3s"
    );
    assert_eq!(
        st.params(),
        vec![
            Value::Blob(vec![1; 12]),
            Value::Blob(floor),
            Value::TinyInt(1),
            Value::TinyInt(2),
            Value::TinyInt(3),
            Value::Int(1000),
        ]
    );

    let st = Log::list_recently_statement(uid(), vec![], vec![7], now_ms).unwrap();
    assert!(st.cql().ends_with("AND action IN (?) LIMIT ? ALLOW FILTERING USING TIMEOUT 3s"));
}

#[test]
fn the_recent_listing_by_action_names() {
    let input = ListRecentlyInput {
        uid: uid(),
        actions: vec!["group.create".to_string(), "group.delete".to_string()],
        fields: Some(vec!["gid".to_string()]),
    };
    let st = list_recently_statement(input, 259_200_000).unwrap();
    assert_eq!(
        st.cql(),
        "SELECT gid,action,status,uid,id FROM log WHERE uid=? AND id>? AND action IN (?,?) LIMIT ? ALLOW FILTERING USING TIMEOUT 3s"
    );
    assert_eq!(
        st.params(),
        vec![
            Value::Blob(vec![1; 12]),
            Value::Blob(vec![0; 12]),
            Value::TinyInt(24),
            Value::TinyInt(28),
            Value::Int(1000),
        ]
    );
    let input = ListRecentlyInput { uid: uid(), actions: vec![], fields: None };
    let st = list_recently_statement(input, 259_200_000).unwrap();
    assert_eq!(
        st.cql(),
        "SELECT uid,id,action,status,gid,ip,payload,tokens,error FROM log WHERE uid=? AND id>? LIMIT ? USING TIMEOUT 3s"
    );
    let input = ListRecentlyInput {
        uid: uid(),
        actions: vec![],
        fields: Some(vec!["when".to_string()]),
    };
    assert_eq!(
        list_recently_statement(input, 259_200_000).unwrap_err(),
        Error::InvalidField("when".to_string())
    );
}

#[test]
fn the_version_and_the_health_record() {
    let v = AppVersion::new("logbase", "0.1.0");
    assert_eq!(v.name, "logbase");
    assert_eq!(v.version, "0.1.0");
    let info = AppInfo::new(Some(3), None, Some(9), 1, 2, 3, 4, 5);
    assert_eq!(
        info,
        AppInfo {
            scylla_latency_avg_ms: 3,
            scylla_latency_p99_ms: 0,
            scylla_latency_p90_ms: 9,
            scylla_errors_num: 1,
            scylla_queries_num: 2,
            scylla_errors_iter_num: 3,
            scylla_queries_iter_num: 4,
            scylla_retries_num: 5,
        }
    );
}

#[test]
fn the_creation_of_an_entry() {
    let input = CreateLogInput {
        uid: uid(),
        gid: Id::new([3; 12]),
        action: "user.login".to_string(),
        status: 0,
        ip: "1.2.3.4".to_string(),
        payload: vec![0x80],
        tokens: 1000,
    };
    let (doc, st) = create_statement(&input, id()).unwrap();
    assert_eq!(doc.uid, uid());
    assert_eq!(doc.id, id());
    assert_eq!(doc.action, 8);
    assert_eq!(doc.status, 0);
    assert!(doc._fields.is_empty());
    assert_eq!(
        st.cql(),
        "UPDATE log SET action=?,status=?,gid=?,ip=?,payload=?,tokens=? WHERE uid=? AND id=?"
    );
    assert_eq!(
        st.params(),
        vec![
            Value::TinyInt(8),
            Value::TinyInt(0),
            Value::Blob(vec![3; 12]),
            Value::Text("1.2.3.4".to_string()),
            Value::Blob(vec![0x80]),
            Value::Int(1000),
            Value::Blob(vec![1; 12]),
            Value::Blob(vec![2; 12]),
        ]
    );
}

#[test]
fn the_columns_of_an_outcome() {
    let input = UpdateLogInput {
        uid: uid(),
        id: id(),
        status: -1,
        payload: Some(vec![7]),
        tokens: None,
        error: Some("no".to_string()),
    };
    assert_eq!(input.validate(), Ok(()));
    let cols = input.columns();
    assert_eq!(cols.len(), 3);
    assert_eq!(cols.get("status"), Some(&Value::TinyInt(-1)));
    assert_eq!(cols.get("payload"), Some(&Value::Blob(vec![7])));
    assert_eq!(cols.get("error"), Some(&Value::Text("no".to_string())));
    assert_eq!(cols.get("tokens"), None);
    assert!(cols.has("status"));
    assert!(!cols.has("tokens"));
    let (name, value) = cols.entry(1);
    assert_eq!(name, "payload");
    assert_eq!(value, &Value::Blob(vec![7]));
}

#[test]
fn rows_become_entries() {
    let fields: Vec<String> = ["tokens", "action", "status", "uid", "id"]
        .iter()
        .map(|s| s.to_string())
        .collect();
    let rows = vec![
        vec![
            Some(Value::Int(5)),
            Some(Value::TinyInt(8)),
            None,
            Some(Value::Blob(vec![1; 12])),
            Some(Value::Blob(vec![2; 12])),
        ],
        vec![
            Some(Value::Text("five".to_string())),
            None,
            Some(Value::TinyInt(-1)),
            Some(Value::Blob(vec![1; 11])),
            None,
        ],
    ];
    let docs = Log::from_rows(&fields, &rows).unwrap();
    assert_eq!(docs.len(), 2);
    assert_eq!(docs[0].tokens, 5);
    assert_eq!(docs[0].action, 8);
    assert_eq!(docs[0].status, 0);
    assert_eq!(docs[0].uid, uid());
    assert_eq!(docs[0].id, id());
    assert_eq!(docs[0]._fields, fields);
    assert_eq!(docs[1].tokens, 0);
    assert_eq!(docs[1].action, 0);
    assert_eq!(docs[1].status, -1);
    assert_eq!(docs[1].uid, Id::zero());
    assert_eq!(docs[1].id, Id::zero());

    let short = vec![vec![Some(Value::Int(5))]];
    let err = Log::from_rows(&fields, &short).unwrap_err();
    assert_eq!(err, Error::RowShape { expected: 5, found: 1 });
    assert_eq!(err.kind(), ErrorKind::Storage);
    assert_eq!(err.code(), 500);
    assert_eq!(err.message(), "row has 1 columns, expected 5");
}

#[test]
fn an_answer_fills_the_entry() {
    let mut doc = Log::with_pk(uid(), id());
    doc.get_one_statement(vec!["error".to_string(), "gid".to_string()]).unwrap();
    assert_eq!(doc.take_row(&vec![]).unwrap_err(), Error::NotFound);
    let row = vec![
        Some(Value::Text("bad".to_string())),
        Some(Value::Blob(vec![4; 12])),
        Some(Value::TinyInt(40)),
        Some(Value::TinyInt(1)),
    ];
    doc.take_row(&vec![row]).unwrap();
    assert_eq!(doc.error, "bad");
    assert_eq!(doc.gid, Id::new([4; 12]));
    assert_eq!(doc.action, 40);
    assert_eq!(doc.status, 1);
    assert_eq!(doc.uid, uid());
    assert_eq!(
        doc.take_row(&vec![vec![None]]).unwrap_err(),
        Error::RowShape { expected: 4, found: 1 }
    );
}

#[test]
fn the_output_of_an_entry() {
    let mut doc = Log::with_pk(uid(), id());
    doc.action = 31;
    doc.status = -1;
    doc.tokens = -1;
    doc.error = "x".to_string();
    doc.ip = "::1".to_string();
    let out = LogOutput::from(doc);
    assert_eq!(out.action, "group.add.member");
    assert_eq!(out.status, -1);
    assert_eq!(out.tokens, None);
    assert_eq!(out.error, None);
    assert_eq!(out.ip, None);

    let mut doc = Log::with_pk(uid(), id());
    doc.action = -7;
    doc.tokens = -1;
    doc.error = "x".to_string();
    doc._fields = vec!["tokens".to_string(), "error".to_string(), "gid".to_string()];
    let out = LogOutput::from(doc);
    assert_eq!(out.action, "reserved");
    assert_eq!(out.tokens, Some(u32::MAX));
    assert_eq!(out.error, Some("x".to_string()));
    assert_eq!(out.gid, Some(Id::zero()));
    assert_eq!(out.payload, None);

    let mut doc = Log::with_pk(uid(), id());
    doc._fields = vec!["error".to_string(), "payload".to_string()];
    let out = LogOutput::from(doc);
    assert_eq!(out.error, None);
    assert_eq!(out.payload, Some(vec![]));
}

#[test]
fn the_store_answers_statements() {
    let mut db = MemoryStore::new();
    let mut cols = ColumnsMap::new();
    cols.set("tokens", Value::Int(3));
    cols.set("error", Value::Empty);
    let write = Statement::Update { cols, uid: uid(), id: id() };
    assert_eq!(db.execute(&write), Ok(vec![]));
    assert_eq!(db.query(&write).unwrap_err().kind(), ErrorKind::Storage);

    let read = Statement::SelectOne {
        fields: vec!["tokens".to_string(), "error".to_string(), "ip".to_string(), "id".to_string()],
        uid: uid(),
        id: id(),
    };
    let expected = vec![vec![Some(Value::Int(3)), None, None, Some(Value::Blob(vec![2; 12]))]];
    assert_eq!(db.query(&read), Ok(expected.clone()));
    assert_eq!(db.execute(&read), Ok(expected));

    let other = Statement::SelectOne { fields: vec!["ip".to_string()], uid: id(), id: uid() };
    assert_eq!(db.query(&other), Ok(vec![]));
    let bad = Statement::SelectOne { fields: vec!["nope".to_string()], uid: uid(), id: id() };
    assert_eq!(db.query(&bad).unwrap_err().kind(), ErrorKind::Storage);
    assert_eq!(db.query(&bad).unwrap_err(), Error::Storage("statement refused".to_string()));
    assert_eq!(db.query(&bad).unwrap_err().message(), "statement refused");
    let none = Statement::SelectOne { fields: vec![], uid: uid(), id: id() };
    assert_eq!(db.query(&none).unwrap_err().kind(), ErrorKind::Storage);
    assert_eq!(db.len(), 1);
}
