use logbase::api::{create, get, update, CreateLogInput, QueryLog, UpdateLogInput};
use logbase::columns::{ColumnsMap, Value};
use logbase::error::{Error, ErrorKind, Invalid};
use logbase::id::Id;
use logbase::log::Log;
use logbase::store::MemoryStore;

fn new_id() -> Id {
    Id::new(xid::new().0)
}

fn now_ms() -> u64 {
    std::time::SystemTime::now()
        .duration_since(std::time::UNIX_EPOCH)
        .unwrap()
        .as_millis() as u64
}

fn login(uid: Id) -> CreateLogInput {
    CreateLogInput {
        uid,
        gid: Id::zero(),
        action: "user.login".to_string(),
        status: 0,
        ip: "1.2.3.4".to_string(),
        payload: vec![],
        tokens: 1000,
    }
}

fn outcome(uid: Id, id: Id, status: i8) -> UpdateLogInput {
    UpdateLogInput { uid, id, status, payload: None, tokens: None, error: None }
}

#[test]
fn log_model_works() {
    let mut store = MemoryStore::new();
    let db = &mut store;
    let uid = new_id();
    let id = new_id();
    let mut doc = Log::with_pk(uid, id);

    let res = doc.get_one(db, vec![]);
    assert!(res.is_err());
    let err = res.unwrap_err();
    assert_eq!(err.code(), 404);

    let content: Vec<u8> = vec![0x80];

    let mut cols = ColumnsMap::with_capacity(4);
    cols.set("action", Value::TinyInt(1i8));
    cols.set("ip", Value::Text("1.2.3.4".to_string()));
    cols.set("tokens", Value::Int(1000i32));
    cols.set("payload", Value::Blob(content.clone()));

    doc.upsert_fields(db, cols).unwrap();

    let mut doc2 = Log::with_pk(uid, id);
    doc2.get_one(db, vec![]).unwrap();

    assert_eq!(doc2.action, 1i8);
    assert_eq!(doc2.gid, Id::zero());
    assert_eq!(doc2.ip, "1.2.3.4".to_string());
    assert_eq!(doc2.tokens, 1000i32);
    assert_eq!(doc2.payload, content);
    assert_eq!(doc2.error, "".to_string());

    let mut doc3 = Log::with_pk(uid, id);
    doc3.get_one(db, vec!["error".to_string()]).unwrap();
    assert_eq!(doc3.tokens, 0i32);
    assert_eq!(doc3.payload.len(), 0);
    assert_eq!(doc3.error, "".to_string());

    let mut cols = ColumnsMap::with_capacity(1);
    cols.set("error", Value::Text("some error".to_string()));
    doc.upsert_fields(db, cols).unwrap();

    let mut doc3 = Log::with_pk(uid, id);
    doc3.get_one(db, vec![]).unwrap();
    assert_eq!(doc3.tokens, 1000i32);
    assert_eq!(doc3.payload, content);
    assert_eq!(doc3.error, "some error".to_string());

    let mut doc = Log::with_pk(uid, new_id());
    let mut cols = ColumnsMap::with_capacity(1);
    cols.set("action", Value::TinyInt(2i8));
    cols.set("error", Value::Text("some error".to_string()));
    doc.upsert_fields(db, cols).unwrap();
    doc.get_one(db, vec![]).unwrap();
    assert_eq!(doc.tokens, 0i32);
    assert_eq!(doc.payload.len(), 0);
    assert_eq!(doc.error, "some error".to_string());

    let docs = Log::list_recently(db, uid, vec![], vec![1i8, 2i8], now_ms()).unwrap();
    assert_eq!(2, docs.len());
    assert_eq!(docs[0].action, 2i8);
    assert_eq!(docs[1].action, 1i8);
}

#[test]
fn a_missing_entry_is_not_found() {
    let db = MemoryStore::new();
    let mut doc = Log::with_pk(new_id(), new_id());
    let err = doc.get_one(&db, vec![]).unwrap_err();
    assert_eq!(err, Error::NotFound);
    assert_eq!(err.kind(), ErrorKind::NotFound);
    assert_eq!(err.code(), 404);
    assert_eq!(
        doc._fields,
        vec!["uid", "id", "action", "status", "gid", "ip", "payload", "tokens", "error"]
    );
}

#[test]
fn a_read_of_an_unknown_field_is_refused_before_the_store_is_asked() {
    let db = MemoryStore::new();
    let uid = new_id();
    let id = new_id();
    let mut doc = Log::with_pk(uid, id);
    let err = doc.get_one(&db, vec!["ip".to_string(), "what".to_string()]).unwrap_err();
    assert_eq!(err, Error::InvalidField("what".to_string()));
    assert!(doc._fields.is_empty());
}

#[test]
fn a_created_entry_is_pending_and_reads_back() {
    let mut db = MemoryStore::new();
    let uid = new_id();
    let out = create(&mut db, login(uid)).unwrap();
    assert_eq!(out.uid, uid);
    assert_eq!(out.action, "user.login");
    assert_eq!(out.status, 0);
    assert_eq!(out.gid, None);
    assert_eq!(out.ip, None);
    assert_eq!(out.tokens, None);
    assert_eq!(db.len(), 1);

    let mut doc = Log::with_pk(uid, out.id);
    doc.get_one(&db, vec![]).unwrap();
    assert_eq!(doc.status, 0);
    assert_eq!(doc.action, 8);
    assert_eq!(doc.uid, uid);
    assert_eq!(doc.id, out.id);
    assert_eq!(doc.ip, "1.2.3.4");
    assert_eq!(doc.tokens, 1000);
    assert_eq!(doc.gid, Id::zero());
}

#[test]
fn the_status_sent_with_a_new_entry_is_checked_and_not_kept() {
    let mut db = MemoryStore::new();
    let uid = new_id();
    let mut input = login(uid);
    input.status = 1;
    let out = create(&mut db, input).unwrap();
    assert_eq!(out.status, 0);
    let read = get(&db, QueryLog { uid, id: out.id, fields: None }).unwrap();
    assert_eq!(read.status, 0);

    let mut input = login(uid);
    input.status = 2;
    assert_eq!(
        create(&mut db, input).unwrap_err(),
        Error::Validation(Invalid::Status(2))
    );
    let mut input = login(uid);
    input.status = -2;
    assert_eq!(
        create(&mut db, input).unwrap_err(),
        Error::Validation(Invalid::Status(-2))
    );
    assert_eq!(db.len(), 1);
}

#[test]
fn negative_tokens_are_refused() {
    let mut db = MemoryStore::new();
    let uid = new_id();
    let mut input = login(uid);
    input.tokens = -1;
    let err = create(&mut db, input).unwrap_err();
    assert_eq!(err, Error::Validation(Invalid::Tokens(-1)));
    assert_eq!(err.kind(), ErrorKind::Validation);
    assert_eq!(err.code(), 400);
    assert_eq!(err.message(), "invalid tokens, expected 0 or more, got -1");
    assert_eq!(db.len(), 0);

    let mut change = outcome(uid, new_id(), 1);
    change.tokens = Some(-5);
    assert_eq!(
        update(&mut db, change).unwrap_err(),
        Error::Validation(Invalid::Tokens(-5))
    );
    assert_eq!(db.len(), 0);
}

#[test]
fn an_unknown_action_is_refused() {
    let mut db = MemoryStore::new();
    let mut input = login(new_id());
    input.action = "user.fly".to_string();
    let err = create(&mut db, input).unwrap_err();
    assert_eq!(err, Error::InvalidAction("user.fly".to_string()));
    assert_eq!(err.kind(), ErrorKind::InvalidAction);
    assert_eq!(err.code(), 400);
    assert_eq!(err.message(), "invalid action user.fly");

    let mut input = login(new_id());
    input.action = "reserved".to_string();
    assert_eq!(
        create(&mut db, input).unwrap_err(),
        Error::InvalidAction("reserved".to_string())
    );
    assert_eq!(db.len(), 0);
}

#[test]
fn an_outcome_must_be_success_or_failure() {
    let mut db = MemoryStore::new();
    let uid = new_id();
    let out = create(&mut db, login(uid)).unwrap();
    for status in [0i8, 2, -2, 127, -128] {
        let err = update(&mut db, outcome(uid, out.id, status)).unwrap_err();
        assert_eq!(err, Error::Validation(Invalid::Status(status)));
    }
    let err = update(&mut db, outcome(uid, out.id, 0)).unwrap_err();
    assert_eq!(err.message(), "invalid status, expected -1 or 1, got 0");
    let err = update(&mut db, outcome(uid, out.id, -128)).unwrap_err();
    assert_eq!(err.message(), "invalid status, expected -1 or 1, got -128");
    let read = get(&db, QueryLog { uid, id: out.id, fields: None }).unwrap();
    assert_eq!(read.status, 0);
}

#[test]
fn login_succeeds_and_freezes() {
    let mut db = MemoryStore::new();
    let uid = new_id();
    let made = create(&mut db, login(uid)).unwrap();

    let read = get(&db, QueryLog { uid, id: made.id, fields: Some(String::new()) }).unwrap();
    assert_eq!(read.status, 0);
    assert_eq!(read.action, "user.login");
    assert_eq!(read.tokens, Some(1000));
    assert_eq!(read.ip, Some("1.2.3.4".to_string()));
    assert_eq!(read.error, None);

    let shown = update(&mut db, outcome(uid, made.id, 1)).unwrap();
    assert_eq!(shown.status, 0);
    assert_eq!(shown.action, "user.login");

    let read = get(&db, QueryLog { uid, id: made.id, fields: None }).unwrap();
    assert_eq!(read.status, 1);
    assert_eq!(read.tokens, Some(1000));

    let err = update(&mut db, outcome(uid, made.id, -1)).unwrap_err();
    assert_eq!(err, Error::Frozen);
    assert_eq!(err.kind(), ErrorKind::Frozen);
    assert_eq!(err.code(), 400);
    assert_eq!(err.message(), "log is frozen");

    let read = get(&db, QueryLog { uid, id: made.id, fields: None }).unwrap();
    assert_eq!(read.status, 1);
}

#[test]
fn a_frozen_entry_takes_no_change_at_all() {
    let mut db = MemoryStore::new();
    let uid = new_id();
    let made = create(&mut db, login(uid)).unwrap();
    let mut change = outcome(uid, made.id, -1);
    change.error = Some("denied".to_string());
    change.tokens = Some(7);
    change.payload = Some(vec![1, 2, 3]);
    update(&mut db, change).unwrap();

    let before = get(&db, QueryLog { uid, id: made.id, fields: None }).unwrap();
    assert_eq!(before.status, -1);
    assert_eq!(before.error, Some("denied".to_string()));
    assert_eq!(before.tokens, Some(7));
    assert_eq!(before.payload, Some(vec![1, 2, 3]));

    let mut doc = Log::with_pk(uid, made.id);
    let mut cols = ColumnsMap::new();
    cols.set("ip", Value::Text("9.9.9.9".to_string()));
    assert_eq!(doc.upsert_fields(&mut db, cols).unwrap_err(), Error::Frozen);
    assert_eq!(doc.status, -1);

    let mut cols = ColumnsMap::new();
    cols.set("nope", Value::Int(1));
    assert_eq!(doc.upsert_fields(&mut db, cols).unwrap_err(), Error::Frozen);

    let mut change = outcome(uid, made.id, 1);
    change.error = Some(String::new());
    assert_eq!(update(&mut db, change).unwrap_err(), Error::Frozen);

    let after = get(&db, QueryLog { uid, id: made.id, fields: None }).unwrap();
    assert_eq!(after.status, -1);
    assert_eq!(after.error, Some("denied".to_string()));
    assert_eq!(after.tokens, Some(7));
    assert_eq!(after.payload, Some(vec![1, 2, 3]));
    assert_eq!(after.ip, Some("1.2.3.4".to_string()));
    assert_eq!(db.len(), 1);
}

#[test]
fn a_pending_entry_takes_changes_and_stays_pending() {
    let mut db = MemoryStore::new();
    let uid = new_id();
    let made = create(&mut db, login(uid)).unwrap();
    let mut doc = Log::with_pk(uid, made.id);
    let mut cols = ColumnsMap::new();
    cols.set("tokens", Value::Int(5));
    cols.set("error", Value::Text("slow".to_string()));
    assert_eq!(doc.upsert_fields(&mut db, cols), Ok(true));
    let mut cols = ColumnsMap::new();
    cols.set("gid", Value::Blob(uid.to_vec()));
    assert_eq!(doc.upsert_fields(&mut db, cols), Ok(true));

    let read = get(&db, QueryLog { uid, id: made.id, fields: None }).unwrap();
    assert_eq!(read.status, 0);
    assert_eq!(read.tokens, Some(5));
    assert_eq!(read.error, Some("slow".to_string()));
    assert_eq!(read.gid, Some(uid));
    assert_eq!(read.ip, Some("1.2.3.4".to_string()));
}

#[test]
fn only_some_columns_may_be_set() {
    let mut db = MemoryStore::new();
    let mut doc = Log::with_pk(new_id(), new_id());
    for name in ["uid", "id", "_fields", "", "Status"] {
        let mut cols = ColumnsMap::new();
        cols.set("ip", Value::Text("1.1.1.1".to_string()));
        cols.set(name, Value::Int(1));
        let err = doc.upsert_fields(&mut db, cols).unwrap_err();
        assert_eq!(err, Error::InvalidField(name.to_string()));
    }
    assert_eq!(db.len(), 0);
    for name in ["status", "gid", "action", "ip", "payload", "tokens", "error"] {
        let mut cols = ColumnsMap::new();
        cols.set(name, Value::Empty);
        assert_eq!(doc.upsert_fields(&mut db, cols), Ok(true));
    }
    assert_eq!(db.len(), 1);
}

#[test]
fn the_store_refuses_what_it_cannot_keep() {
    let mut db = MemoryStore::new();
    let mut doc = Log::with_pk(new_id(), new_id());
    let err = doc.upsert_fields(&mut db, ColumnsMap::new()).unwrap_err();
    assert_eq!(err.kind(), ErrorKind::Storage);
    assert_eq!(err.code(), 500);
    let mut cols = ColumnsMap::new();
    cols.set("status", Value::Text("done".to_string()));
    let err = doc.upsert_fields(&mut db, cols).unwrap_err();
    assert_eq!(err.kind(), ErrorKind::Storage);
    assert_eq!(db.len(), 0);
}

#[test]
fn fields_that_were_not_fetched_are_absent() {
    let mut db = MemoryStore::new();
    let uid = new_id();
    let made = create(&mut db, login(uid)).unwrap();
    let read = get(
        &db,
        QueryLog { uid, id: made.id, fields: Some("tokens".to_string()) },
    )
    .unwrap();
    assert_eq!(read.tokens, Some(1000));
    assert_eq!(read.ip, None);
    assert_eq!(read.gid, None);
    assert_eq!(read.payload, None);
    assert_eq!(read.error, None);
    assert_eq!(read.action, "user.login");
    assert_eq!(read.status, 0);
    assert_eq!(read.uid, uid);
    assert_eq!(read.id, made.id);

    let read = get(
        &db,
        QueryLog { uid, id: made.id, fields: Some("payload, error,gid".to_string()) },
    )
    .unwrap();
    assert_eq!(read.payload, Some(vec![]));
    assert_eq!(read.gid, Some(Id::zero()));
    assert_eq!(read.error, None);
    assert_eq!(read.tokens, None);

    let err = get(
        &db,
        QueryLog { uid, id: made.id, fields: Some("tokens,,ip".to_string()) },
    )
    .unwrap_err();
    assert_eq!(err, Error::InvalidField(String::new()));
}

#[test]
fn new_identifiers_differ_and_grow() {
    let mut db = MemoryStore::new();
    let uid = new_id();
    let a = create(&mut db, login(uid)).unwrap();
    let b = create(&mut db, login(uid)).unwrap();
    assert!(a.id.lt(&b.id));
    assert_eq!(db.len(), 2);
    let secs = (now_ms() / 1000) as u32;
    let stamp = u32::from_be_bytes([b.id.bytes[0], b.id.bytes[1], b.id.bytes[2], b.id.bytes[3]]);
    assert!(stamp <= secs && secs - stamp < 60);
}
