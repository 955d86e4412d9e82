use logbase::api::{
    create, create_with, list_recently, resolve_actions, CreateLogInput, ListRecentlyInput,
};
use logbase::error::{Error, ErrorKind, Invalid};
use logbase::id::Id;
use logbase::log::Log;
use logbase::store::MemoryStore;

const NOW_MS: u64 = 1_700_000_000_000;
const NOW: u32 = 1_700_000_000;
const WINDOW: u32 = 259_200;

fn owner(n: u8) -> Id {
    Id::new([9, 9, 9, 9, 0, 0, 0, 0, 0, 0, 0, n])
}

fn at(secs: u32, counter: u8) -> Id {
    let t = secs.to_be_bytes();
    Id::new([t[0], t[1], t[2], t[3], 1, 2, 3, 4, 5, 0, 0, counter])
}

fn entry(uid: Id, action: &str) -> CreateLogInput {
    CreateLogInput {
        uid,
        gid: Id::zero(),
        action: action.to_string(),
        status: 0,
        ip: String::new(),
        payload: vec![],
        tokens: 0,
    }
}

fn filled(uid: Id, n: u8) -> MemoryStore {
    let mut db = MemoryStore::new();
    let order: Vec<u8> = (0..n).map(|i| (i * 7) % n).collect();
    for i in order {
        let action = if i % 2 == 0 { "group.create" } else { "group.delete" };
        create_with(&mut db, entry(uid, action), at(NOW - 100 + i as u32, i)).unwrap();
        create_with(&mut db, entry(owner(200), "user.login"), at(NOW - 100 + i as u32, i)).unwrap();
    }
    db
}

fn ids(docs: &[Log]) -> Vec<Id> {
    docs.iter().map(|d| d.id).collect()
}

fn all_pages(db: &MemoryStore, uid: Id, size: u16, action: Option<i8>) -> Vec<Id> {
    let mut seen = Vec::new();
    let mut token = None;
    loop {
        let page = Log::list(db, uid, vec![], size, token, action).unwrap();
        assert!(page.len() <= size as usize);
        if page.is_empty() {
            break;
        }
        seen.extend(ids(&page));
        token = Some(page[page.len() - 1].id);
    }
    seen
}

#[test]
fn a_backward_listing_goes_from_the_latest_to_the_earliest() {
    let uid = owner(1);
    let db = filled(uid, 25);
    let docs = Log::list(&db, uid, vec![], 100, None, None).unwrap();
    assert_eq!(docs.len(), 25);
    for pair in docs.windows(2) {
        assert!(pair[1].id.lt(&pair[0].id));
    }
    for (i, doc) in docs.iter().enumerate() {
        assert_eq!(doc.id, at(NOW - 100 + 24 - i as u32, 24 - i as u8));
        assert_eq!(doc.uid, uid);
    }
}

#[test]
fn pages_of_any_size_cover_the_listing_once() {
    let uid = owner(1);
    let db = filled(uid, 25);
    let whole = ids(&Log::list(&db, uid, vec![], 1000, None, None).unwrap());
    assert_eq!(whole.len(), 25);
    for size in [1u16, 10, 25, 26] {
        assert_eq!(all_pages(&db, uid, size, None), whole);
    }
}

#[test]
fn the_second_page_starts_below_the_cursor() {
    let uid = owner(1);
    let db = filled(uid, 25);
    let first = Log::list(&db, uid, vec![], 10, None, None).unwrap();
    assert_eq!(first.len(), 10);
    assert_eq!(first[0].id, at(NOW - 100 + 24, 24));
    assert_eq!(first[9].id, at(NOW - 100 + 15, 15));
    let second = Log::list(&db, uid, vec![], 10, Some(first[9].id), None).unwrap();
    assert_eq!(second.len(), 10);
    assert_eq!(second[0].id, at(NOW - 100 + 14, 14));
    let third = Log::list(&db, uid, vec![], 10, Some(second[9].id), None).unwrap();
    assert_eq!(third.len(), 5);
    assert_eq!(third[4].id, at(NOW - 100, 0));
    let fourth = Log::list(&db, uid, vec![], 10, Some(third[4].id), None).unwrap();
    assert!(fourth.is_empty());
}

#[test]
fn a_cursor_need_not_be_an_entry() {
    let uid = owner(1);
    let db = filled(uid, 5);
    let docs = Log::list(&db, uid, vec![], 10, Some(Id::floor(NOW - 100 + 3)), None).unwrap();
    assert_eq!(ids(&docs), vec![at(NOW - 98, 2), at(NOW - 99, 1), at(NOW - 100, 0)]);
    assert!(Log::list(&db, uid, vec![], 10, Some(Id::zero()), None).unwrap().is_empty());
}

#[test]
fn an_action_filter_keeps_that_action_only() {
    let uid = owner(1);
    let db = filled(uid, 25);
    let made = Log::list(&db, uid, vec![], 100, None, Some(24)).unwrap();
    assert_eq!(made.len(), 13);
    assert!(made.iter().all(|d| d.action == 24));
    let gone = Log::list(&db, uid, vec![], 100, None, Some(28)).unwrap();
    assert_eq!(gone.len(), 12);
    assert!(gone.iter().all(|d| d.action == 28));
    assert!(Log::list(&db, uid, vec![], 100, None, Some(8)).unwrap().is_empty());
    for size in [1u16, 10, 13] {
        assert_eq!(all_pages(&db, uid, size, Some(24)), ids(&made));
    }
}

#[test]
fn a_listing_shows_one_owner() {
    let uid = owner(1);
    let db = filled(uid, 10);
    assert_eq!(db.len(), 20);
    let other = Log::list(&db, owner(200), vec![], 100, None, None).unwrap();
    assert_eq!(other.len(), 10);
    assert!(other.iter().all(|d| d.uid == owner(200) && d.action == 8));
    assert!(Log::list(&db, owner(3), vec![], 100, None, None).unwrap().is_empty());
}

#[test]
fn a_listing_fetches_the_key_and_the_mandatory_fields() {
    let uid = owner(1);
    let db = filled(uid, 3);
    let docs = Log::list(&db, uid, vec!["ip".to_string()], 2, None, None).unwrap();
    assert_eq!(docs.len(), 2);
    for doc in &docs {
        assert_eq!(doc._fields, vec!["ip", "action", "status", "uid", "id"]);
        assert_eq!(doc.uid, uid);
        assert_eq!(doc.status, 0);
    }
    assert_eq!(docs[0].action, 24);
    assert_eq!(docs[1].action, 28);
}

#[test]
fn a_listing_refuses_unknown_fields_and_empty_pages() {
    let uid = owner(1);
    let db = filled(uid, 3);
    let err = Log::list(&db, uid, vec!["x".to_string()], 10, None, None).unwrap_err();
    assert_eq!(err, Error::InvalidField("x".to_string()));
    let err = Log::list(&db, uid, vec![], 0, None, None).unwrap_err();
    assert_eq!(err.kind(), ErrorKind::Storage);
    let err = Log::list_recently(&db, uid, vec!["y".to_string()], vec![], NOW_MS).unwrap_err();
    assert_eq!(err, Error::InvalidField("y".to_string()));
}

#[test]
fn recent_entries_are_those_of_the_last_three_days() {
    let uid = owner(1);
    let mut db = MemoryStore::new();
    let start = NOW - WINDOW;
    let stamps = [
        (start - 86_400, false),
        (start - 1, false),
        (start, true),
        (start + 1, true),
        (NOW - 3600, true),
        (NOW, true),
    ];
    for (i, (secs, _)) in stamps.iter().enumerate() {
        create_with(&mut db, entry(uid, "user.login"), at(*secs, i as u8)).unwrap();
    }
    create_with(&mut db, entry(uid, "user.login"), Id::floor(start)).unwrap();
    create_with(&mut db, entry(owner(2), "user.login"), at(NOW, 9)).unwrap();

    let docs = Log::list_recently(&db, uid, vec![], vec![], NOW_MS).unwrap();
    let expected: Vec<Id> = stamps
        .iter()
        .enumerate()
        .rev()
        .filter(|(_, (_, recent))| *recent)
        .map(|(i, (secs, _))| at(*secs, i as u8))
        .collect();
    assert_eq!(expected.len(), 4);
    assert_eq!(ids(&docs), expected);
    for pair in docs.windows(2) {
        assert!(pair[1].id.lt(&pair[0].id));
    }
}

#[test]
fn recent_entries_by_action() {
    let uid = owner(1);
    let db = filled(uid, 9);
    let now_ms = NOW_MS;
    let both = Log::list_recently(&db, uid, vec![], vec![24, 28], now_ms).unwrap();
    assert_eq!(both.len(), 9);
    let made = Log::list_recently(&db, uid, vec![], vec![24], now_ms).unwrap();
    assert_eq!(made.len(), 5);
    assert!(made.iter().all(|d| d.action == 24));
    let none = Log::list_recently(&db, uid, vec![], vec![8, 9], now_ms).unwrap();
    assert!(none.is_empty());
    let all = Log::list_recently(&db, uid, vec![], vec![], now_ms).unwrap();
    assert_eq!(ids(&all), ids(&both));
}

#[test]
fn recent_entries_stop_at_a_thousand() {
    let uid = owner(1);
    let mut db = MemoryStore::new();
    for i in 0..1003u32 {
        let t = (NOW - 2000 + i).to_be_bytes();
        let id = Id::new([t[0], t[1], t[2], t[3], 0, 0, 0, 0, 0, 0, 0, 1]);
        create_with(&mut db, entry(uid, "user.login"), id).unwrap();
    }
    let docs = Log::list_recently(&db, uid, vec!["id".to_string()], vec![], NOW_MS).unwrap();
    assert_eq!(docs.len(), 1000);
    assert_eq!(&docs[0].id.bytes[0..4], &(NOW - 2000 + 1002).to_be_bytes()[..]);
    assert_eq!(&docs[999].id.bytes[0..4], &(NOW - 2000 + 3).to_be_bytes()[..]);
}

#[test]
fn eleven_filters_are_one_too_many() {
    let db = MemoryStore::new();
    let actions: Vec<String> = (0..11).map(|_| "user.login".to_string()).collect();
    let input = ListRecentlyInput { uid: owner(1), actions, fields: None };
    let err = list_recently(&db, input, NOW_MS).unwrap_err();
    assert_eq!(err, Error::Validation(Invalid::TooManyActions(11)));
    assert_eq!(err.kind(), ErrorKind::Validation);
    assert_eq!(err.code(), 400);
    assert_eq!(err.message(), "too many actions, expected at most 10, got 11");

    let actions: Vec<String> = (0..10).map(|_| "user.login".to_string()).collect();
    let input = ListRecentlyInput { uid: owner(1), actions, fields: None };
    assert!(list_recently(&db, input, NOW_MS).unwrap().is_empty());
}

#[test]
fn too_many_filters_are_refused_before_their_names_are_read() {
    let db = MemoryStore::new();
    let actions: Vec<String> = (0..12).map(|_| "no.such".to_string()).collect();
    let input = ListRecentlyInput { uid: owner(1), actions, fields: None };
    assert_eq!(
        list_recently(&db, input, NOW_MS).unwrap_err(),
        Error::Validation(Invalid::TooManyActions(12))
    );
}

#[test]
fn a_filter_that_is_no_action_is_refused() {
    let db = MemoryStore::new();
    let input = ListRecentlyInput {
        uid: owner(1),
        actions: vec!["user.login".to_string(), "user.fly".to_string(), "x".to_string()],
        fields: None,
    };
    let err = list_recently(&db, input, NOW_MS).unwrap_err();
    assert_eq!(err, Error::Validation(Invalid::UnknownAction("user.fly".to_string())));
    assert_eq!(err.kind(), ErrorKind::Validation);
    assert_eq!(err.message(), "invalid action user.fly");
    assert_eq!(
        resolve_actions(&vec!["reserved".to_string()]).unwrap_err(),
        Error::Validation(Invalid::UnknownAction("reserved".to_string()))
    );
    assert_eq!(
        resolve_actions(&vec!["user.login".to_string(), "group.delete".to_string()]),
        Ok(vec![8, 28])
    );
    assert_eq!(resolve_actions(&vec![]), Ok(vec![]));
}

#[test]
fn two_group_actions_most_recent_first() {
    let mut db = MemoryStore::new();
    let uid = owner(1);
    let first = create(&mut db, entry(uid, "group.create")).unwrap();
    let second = create(&mut db, entry(uid, "group.delete")).unwrap();
    create(&mut db, entry(uid, "user.login")).unwrap();
    let now_ms = std::time::SystemTime::now()
        .duration_since(std::time::UNIX_EPOCH)
        .unwrap()
        .as_millis() as u64;
    let input = ListRecentlyInput {
        uid,
        actions: vec!["group.create".to_string(), "group.delete".to_string()],
        fields: None,
    };
    let found = list_recently(&db, input, now_ms).unwrap();
    assert_eq!(found.len(), 2);
    assert_eq!(found[0].action, "group.delete");
    assert_eq!(found[0].id, second.id);
    assert_eq!(found[1].action, "group.create");
    assert_eq!(found[1].id, first.id);
    assert_eq!(found[0].tokens, Some(0));
    assert_eq!(found[0].ip, Some(String::new()));
}

#[test]
fn an_empty_filter_lists_every_action() {
    let mut db = MemoryStore::new();
    let uid = owner(1);
    create_with(&mut db, entry(uid, "group.create"), at(NOW - 5, 1)).unwrap();
    create_with(&mut db, entry(uid, "user.login"), at(NOW - 4, 2)).unwrap();
    let input = ListRecentlyInput {
        uid,
        actions: vec![],
        fields: Some(vec!["tokens".to_string()]),
    };
    let found = list_recently(&db, input, NOW_MS).unwrap();
    assert_eq!(found.len(), 2);
    assert_eq!(found[0].action, "user.login");
    assert_eq!(found[1].action, "group.create");
    assert_eq!(found[0].tokens, Some(0));
    assert_eq!(found[0].ip, None);
    assert_eq!(found[0].uid, uid);
    assert_eq!(found[0].id, at(NOW - 4, 2));
}
