use discorde_api::collection::Collection;
use discorde_api::db::Db;
use discorde_api::disk::Disk;
use discorde_api::document::{merge, Document, IdDocument};
use discorde_api::error::StoreError;
use discorde_api::json::{parse, to_text};
use discorde_api::query::{Condition, Where};
use discorde_api::value::Json;

fn open() -> (Db, Disk) {
    let mut disk = Disk::new();
    let mut db = Db::new("database".to_string(), "41".to_string(), &mut disk).unwrap();
    db.lock(&mut disk, false).unwrap();
    (db, disk)
}

fn json(text: &str) -> Json {
    parse(text).unwrap()
}

fn text(value: &Json) -> String {
    to_text(value).unwrap()
}

fn insert(db: &Db, disk: &mut Disk, collection: &str, payload: &str) -> String {
    db.clone().collection(collection, disk).add(json(payload), disk).unwrap()
}

fn doc(db: &Db, disk: &Disk, collection: &str, id: &str) -> Document {
    db.clone().collection(collection, disk).doc(id, disk)
}

fn read(db: &Db, disk: &Disk, collection: &str, id: &str) -> Option<String> {
    doc(db, disk, collection, id).get(disk).unwrap().map(|v| text(&v))
}

fn ids(found: Vec<IdDocument>) -> Vec<String> {
    found.into_iter().map(|d| d.id).collect()
}

fn query(db: &Db, disk: &Disk, collection: &str, key: &str, cond: Condition, value: &str) -> Vec<String> {
    ids(db.clone().collection(collection, disk).wherr(key.to_string(), cond, json(value), disk).unwrap().get())
}

fn sorted(mut v: Vec<String>) -> Vec<String> {
    v.sort();
    v
}

#[test]
fn opening_creates_the_base_with_index_and_version() {
    let mut disk = Disk::new();
    assert!(!disk.root());
    let db = Db::new("database".to_string(), "41".to_string(), &mut disk).unwrap();
    assert!(disk.root());
    assert_eq!(disk.index(), Some("{}".to_string()));
    assert_eq!(disk.version(), Some("1".to_string()));
    assert_eq!(disk.lock(), None);
    assert!(!db.is_locked());
    assert_eq!(db.base(), "database");
    assert_eq!(db.pid(), "41");
}

#[test]
fn opening_an_existing_base_changes_nothing() {
    let mut disk = Disk::new();
    disk.set_root(true);
    disk.set_index(Some(r#"{"users":{}}"#.to_string()));
    disk.set_lock(Some("41".to_string()));
    let db = Db::new("database".to_string(), "41".to_string(), &mut disk).unwrap();
    assert_eq!(disk.index(), Some(r#"{"users":{}}"#.to_string()));
    assert_eq!(disk.version(), None);
    assert!(db.is_locked());
    let other = Db::new("database".to_string(), "42".to_string(), &mut disk).unwrap();
    assert!(!other.is_locked());
}

#[test]
fn locking_writes_the_pid_and_unlocking_removes_it() {
    let mut disk = Disk::new();
    let mut db = Db::new("database".to_string(), "41".to_string(), &mut disk).unwrap();
    assert_eq!(db.holder(&disk), None);
    db.lock(&mut disk, true).unwrap();
    assert!(db.is_locked());
    assert_eq!(disk.lock(), Some("41".to_string()));
    db.lock(&mut disk, true).unwrap();
    assert_eq!(disk.lock(), Some("41".to_string()));
    db.unlock(&mut disk).unwrap();
    assert!(!db.is_locked());
    assert_eq!(disk.lock(), None);
    db.unlock(&mut disk).unwrap();
    assert_eq!(disk.lock(), None);
}

#[test]
fn unlocking_without_a_lock_file_is_an_io_error() {
    let (mut db, mut disk) = open();
    disk.set_lock(None);
    assert!(matches!(db.unlock(&mut disk), Err(StoreError::Io)));
    assert!(db.is_locked());
}

#[test]
fn a_lock_file_with_the_own_pid_is_taken_over() {
    let mut disk = Disk::new();
    let mut db = Db::new("database".to_string(), "41".to_string(), &mut disk).unwrap();
    let mut twin = db.clone();
    db.lock(&mut disk, false).unwrap();
    assert!(!twin.is_locked());
    assert_eq!(twin.holder(&disk), None);
    twin.lock(&mut disk, true).unwrap();
    assert!(twin.is_locked());
    assert_eq!(disk.lock(), Some("41".to_string()));
}

#[test]
fn writes_without_the_lock_are_refused() {
    let mut disk = Disk::new();
    let db = Db::new("database".to_string(), "41".to_string(), &mut disk).unwrap();
    let users = db.clone().collection("users", &disk);
    assert!(matches!(users.add(json(r#"{"a":1}"#), &mut disk), Err(StoreError::Unlocked)));
    assert!(matches!(users.mkdir(&mut disk), Err(StoreError::Unlocked)));
    assert!(matches!(users.index(json(r#"{"a":1}"#), &mut disk), Err(StoreError::Unlocked)));
    let mut d = users.copy().doc("x", &disk);
    assert!(matches!(d.set(json(r#"{"a":1}"#), &mut disk), Err(StoreError::Unlocked)));
    assert!(matches!(d.set_with_index(json(r#"{"a":1}"#), false, &mut disk), Err(StoreError::Unlocked)));
    assert!(matches!(d.delete(&mut disk), Err(StoreError::Unlocked)));
    assert!(disk.dirs().is_empty());
    assert!(disk.docs().is_empty());
    assert_eq!(disk.index(), Some("{}".to_string()));
}

#[test]
fn insert_then_get_gives_the_payload() {
    let (db, mut disk) = open();
    let payload = r#"{"a":[1,2,{"b":null}],"c":"d","e":-1.5}"#;
    let id = insert(&db, &mut disk, "things", payload);
    assert_eq!(id.len(), 36);
    assert_eq!(read(&db, &disk, "things", &id), Some(payload.to_string()));
    assert_eq!(disk.read(&"database/things".to_string(), &id), Some(payload.to_string()));
    assert!(disk.is_dir(&"database/things".to_string()));
}

#[test]
fn fresh_identifiers_differ() {
    let (db, mut disk) = open();
    let a = insert(&db, &mut disk, "things", r#"{"a":1}"#);
    let b = insert(&db, &mut disk, "things", r#"{"a":1}"#);
    assert_ne!(a, b);
    assert_eq!(a.len(), 36);
    assert_eq!(a.chars().filter(|c| *c == '-').count(), 4);
    assert_eq!(disk.docs().len(), 2);
}

#[test]
fn the_first_insert_into_a_new_collection_is_indexed() {
    let (db, mut disk) = open();
    let id = insert(&db, &mut disk, "things", r#"{"a":1}"#);
    assert_eq!(disk.index(), Some(format!(r#"{{"things":{{"a":[[1,"{id}"]]}}}}"#)));
    assert_eq!(query(&db, &disk, "things", "a", Condition::Equal, "1"), vec![id]);
}

#[test]
fn update_then_get_gives_the_shallow_merge() {
    let (db, mut disk) = open();
    let id = insert(&db, &mut disk, "things", r#"{"a":1,"b":{"x":1,"y":2},"c":"keep"}"#);
    let mut d = doc(&db, &disk, "things", &id);
    d.update(json(r#"{"b":{"z":3},"d":true,"a":2}"#), &mut disk).unwrap();
    assert_eq!(read(&db, &disk, "things", &id), Some(r#"{"a":2,"b":{"z":3},"c":"keep","d":true}"#.to_string()));
    assert_eq!(query(&db, &disk, "things", "a", Condition::Equal, "2"), vec![id.clone()]);
    assert!(query(&db, &disk, "things", "a", Condition::Equal, "1").is_empty());
    assert_eq!(query(&db, &disk, "things", "d", Condition::Equal, "true"), vec![id]);
}

#[test]
fn two_equal_updates_leave_what_one_leaves() {
    let (db, mut disk) = open();
    let id = insert(&db, &mut disk, "things", r#"{"a":1,"b":2}"#);
    doc(&db, &disk, "things", &id).update(json(r#"{"b":3,"c":4}"#), &mut disk).unwrap();
    let docs = disk.docs();
    let index = disk.index();
    doc(&db, &disk, "things", &id).update(json(r#"{"b":3,"c":4}"#), &mut disk).unwrap();
    assert_eq!(disk.docs(), docs);
    assert_eq!(disk.index(), index);
}

#[test]
fn indexing_twice_gives_the_same_index() {
    let (db, mut disk) = open();
    let _a = insert(&db, &mut disk, "things", r#"{"a":2,"b":"x"}"#);
    let _b = insert(&db, &mut disk, "things", r#"{"a":1,"b":"y"}"#);
    let things = db.clone().collection("things", &disk);
    things.index(json(r#"{"a":0,"b":0}"#), &mut disk).unwrap();
    let once = disk.index();
    things.index(json(r#"{"a":0,"b":0}"#), &mut disk).unwrap();
    assert_eq!(disk.index(), once);
}

#[test]
fn updating_a_document_that_is_not_there_does_nothing() {
    let (db, mut disk) = open();
    let _id = insert(&db, &mut disk, "things", r#"{"a":1}"#);
    let mut d = doc(&db, &disk, "things", "nobody");
    assert!(!d.exist);
    let docs = disk.docs();
    d.update(json(r#"{"a":2}"#), &mut disk).unwrap();
    assert_eq!(disk.docs(), docs);
    assert_eq!(d.get(&disk).unwrap().map(|v| text(&v)), None);
}

#[test]
fn update_refuses_what_is_no_object() {
    let (db, mut disk) = open();
    let id = insert(&db, &mut disk, "things", r#"{"a":1}"#);
    let mut d = doc(&db, &disk, "things", &id);
    assert!(matches!(d.update(json("[1]"), &mut disk), Err(StoreError::Malformed)));
    assert_eq!(read(&db, &disk, "things", &id), Some(r#"{"a":1}"#.to_string()));
    disk.write(&"database/things".to_string(), &id, "[1,2]".to_string());
    assert!(matches!(d.update(json(r#"{"a":2}"#), &mut disk), Err(StoreError::Malformed)));
}

#[test]
fn delete_then_get_gives_nothing() {
    let (db, mut disk) = open();
    let a = insert(&db, &mut disk, "things", r#"{"k":1,"only":true}"#);
    let b = insert(&db, &mut disk, "things", r#"{"k":2}"#);
    let mut d = doc(&db, &disk, "things", &a);
    assert!(d.exist);
    d.delete(&mut disk).unwrap();
    assert!(!d.exist);
    assert_eq!(d.clone().get(&disk).unwrap().map(|v| text(&v)), None);
    assert_eq!(read(&db, &disk, "things", &a), None);
    assert!(!doc(&db, &disk, "things", &a).exist);
    assert_eq!(disk.read(&"database/things".to_string(), &a), None);
    assert_eq!(query(&db, &disk, "things", "k", Condition::GreaterOrEqual, "0"), vec![b.clone()]);
    assert_eq!(disk.index(), Some(format!(r#"{{"things":{{"k":[[2,"{b}"]]}}}}"#)));
}

#[test]
fn deleting_a_document_that_is_not_there_is_an_io_error() {
    let (db, mut disk) = open();
    let mut d = doc(&db, &disk, "things", "nobody");
    assert!(matches!(d.delete(&mut disk), Err(StoreError::Io)));
}

#[test]
fn reading_a_file_that_is_gone_is_an_io_error() {
    let (db, mut disk) = open();
    let id = insert(&db, &mut disk, "things", r#"{"a":1}"#);
    let d = doc(&db, &disk, "things", &id);
    assert!(disk.remove(&"database/things".to_string(), &id));
    assert!(matches!(d.get(&disk), Err(StoreError::Io)));
}

#[test]
fn reading_a_file_that_is_no_json_is_malformed() {
    let (db, mut disk) = open();
    disk.write(&"database/things".to_string(), &"x".to_string(), "{oops".to_string());
    assert!(matches!(doc(&db, &disk, "things", "x").get(&disk), Err(StoreError::Malformed)));
}

#[test]
fn a_missing_index_file_is_an_io_error() {
    let (db, mut disk) = open();
    let _id = insert(&db, &mut disk, "things", r#"{"a":1}"#);
    disk.set_index(None);
    let things = db.clone().collection("things", &disk);
    assert!(matches!(things.copy().wherr("a".to_string(), Condition::Equal, json("1"), &disk), Err(StoreError::Io)));
    assert!(matches!(things.index(json(r#"{"a":1}"#), &mut disk), Err(StoreError::Io)));
    assert!(matches!(things.add(json(r#"{"a":2}"#), &mut disk), Err(StoreError::Io)));
    assert_eq!(disk.docs().len(), 2);
    assert_eq!(disk.index(), None);
}

#[test]
fn a_broken_index_file_is_malformed() {
    let (db, mut disk) = open();
    let _id = insert(&db, &mut disk, "things", r#"{"a":1}"#);
    let things = db.clone().collection("things", &disk);
    for broken in ["{", "[]", "3"] {
        disk.set_index(Some(broken.to_string()));
        assert!(matches!(
            things.copy().wherr("a".to_string(), Condition::Equal, json("1"), &disk),
            Err(StoreError::Malformed)
        ));
        assert!(matches!(things.index(json(r#"{"a":1}"#), &mut disk), Err(StoreError::Malformed)));
        assert_eq!(disk.index(), Some(broken.to_string()));
    }
    for broken in [r#"{"things":{"a":3}}"#, r#"{"things":{"a":[[1]]}}"#, r#"{"things":{"a":[[1,2]]}}"#] {
        disk.set_index(Some(broken.to_string()));
        assert!(matches!(
            things.copy().wherr("a".to_string(), Condition::Equal, json("1"), &disk),
            Err(StoreError::Malformed)
        ));
    }
}

#[test]
fn an_index_without_the_collection_or_the_field_finds_nothing() {
    let (db, mut disk) = open();
    let _id = insert(&db, &mut disk, "things", r#"{"a":1}"#);
    assert!(query(&db, &disk, "things", "b", Condition::NotEqual, "1").is_empty());
    disk.set_index(Some(r#"{"things":7}"#.to_string()));
    assert!(query(&db, &disk, "things", "a", Condition::Equal, "1").is_empty());
    disk.set_index(Some(r#"{"others":{"a":[[1,"x"]]}}"#.to_string()));
    assert!(query(&db, &disk, "things", "a", Condition::Equal, "1").is_empty());
    disk.set_index(Some(r#"{"things":{"a":[]}}"#.to_string()));
    assert!(query(&db, &disk, "things", "a", Condition::Equal, "1").is_empty());
}

#[test]
fn a_collection_that_does_not_exist_finds_nothing() {
    let (db, disk) = open();
    let nothing = db.clone().collection("nothing", &disk);
    assert!(!nothing.exist);
    assert!(nothing.get(&disk).is_empty());
    assert!(query(&db, &disk, "nothing", "a", Condition::Equal, "1").is_empty());
}

#[test]
fn indexing_data_that_is_no_object_is_malformed() {
    let (db, mut disk) = open();
    let _id = insert(&db, &mut disk, "things", r#"{"a":1}"#);
    let things = db.clone().collection("things", &disk);
    assert!(matches!(things.index(json("[1]"), &mut disk), Err(StoreError::Malformed)));
    let mut d = things.copy().doc("plain", &disk);
    assert!(matches!(d.set(json("3"), &mut disk), Err(StoreError::Malformed)));
    assert_eq!(disk.read(&"database/things".to_string(), &"plain".to_string()), Some("3".to_string()));
}

#[test]
fn a_collection_outside_the_base_cannot_be_indexed() {
    let (db, mut disk) = open();
    let away = Collection::new_from(db.clone(), "things", "elsewhere".to_string(), &disk);
    assert_eq!(away.path(), "elsewhere/things");
    assert!(matches!(away.index(json(r#"{"a":1}"#), &mut disk), Err(StoreError::Io)));
    assert!(matches!(away.add(json(r#"{"a":1}"#), &mut disk), Err(StoreError::Io)));
    assert_eq!(disk.docs().len(), 1);
    let again = Collection::new_from(db.clone(), "things", "elsewhere".to_string(), &disk);
    assert!(again.exist);
    assert!(matches!(again.wherr("a".to_string(), Condition::Equal, json("1"), &disk), Err(StoreError::Io)));
}

#[test]
fn set_writes_under_the_name_given() {
    let (db, mut disk) = open();
    let mut d = doc(&db, &disk, "things", "named");
    assert!(!d.exist);
    assert_eq!(d.name, "named");
    assert_eq!(d.path(), "database/things/named.json");
    d.set(json(r#"{"a":"x"}"#), &mut disk).unwrap();
    assert!(d.exist);
    assert_eq!(read(&db, &disk, "things", "named"), Some(r#"{"a":"x"}"#.to_string()));
    d.set(json(r#"{"a":"y"}"#), &mut disk).unwrap();
    assert_eq!(read(&db, &disk, "things", "named"), Some(r#"{"a":"y"}"#.to_string()));
    assert_eq!(disk.docs().len(), 1);
    assert_eq!(disk.index(), Some(r#"{"things":{"a":[["y","named"]]}}"#.to_string()));
}

#[test]
fn set_with_index_can_leave_the_index_alone() {
    let (db, mut disk) = open();
    let d = doc(&db, &disk, "things", "named");
    d.set_with_index(json(r#"{"a":"x"}"#), false, &mut disk).unwrap();
    assert_eq!(disk.index(), Some("{}".to_string()));
    d.set_with_index(json(r#"{"a":"x"}"#), true, &mut disk).unwrap();
    assert_eq!(disk.index(), Some(r#"{"things":{"a":[["x","named"]]}}"#.to_string()));
}

#[test]
fn the_documents_of_a_collection_are_listed_in_order() {
    let (db, mut disk) = open();
    let a = insert(&db, &mut disk, "things", r#"{"a":1}"#);
    let _o = insert(&db, &mut disk, "others", r#"{"a":1}"#);
    let b = insert(&db, &mut disk, "things", r#"{"a":0}"#);
    let things = db.clone().collection("things", &disk);
    assert!(things.exist);
    assert_eq!(things.name, "things");
    let found = things.get(&disk);
    assert!(found.iter().all(|d| d.doc.exist && d.doc.name == d.id));
    assert_eq!(ids(found), vec![a.clone(), b.clone()]);
    let named = things.documents(&vec![b.clone(), "nobody".to_string()], &disk);
    assert_eq!(named.len(), 2);
    assert!(named[0].doc.exist);
    assert!(!named[1].doc.exist);
    assert_eq!(named[1].id, "nobody");
}

#[test]
fn a_document_has_collections_of_its_own() {
    let (db, mut disk) = open();
    let id = insert(&db, &mut disk, "users", r#"{"name":"a"}"#);
    let notes = doc(&db, &disk, "users", &id).collection("notes", &disk);
    assert_eq!(notes.path(), &format!("database/users/{id}/notes"));
    assert_eq!(notes.name, "notes");
    assert!(!notes.exist);
    let note = notes.add(json(r#"{"text":"hi"}"#), &mut disk).unwrap();
    let notes = doc(&db, &disk, "users", &id).collection("notes", &disk);
    assert!(notes.exist);
    let found = notes.copy().wherr("text".to_string(), Condition::Equal, json(r#""hi""#), &disk).unwrap();
    assert_eq!(ids(found.get()), vec![note.clone()]);
    assert_eq!(
        disk.index(),
        Some(format!(
            r#"{{"users":{{"name":[["a","{id}"]]}},"users/{id}/notes":{{"text":[["hi","{note}"]]}}}}"#
        ))
    );
}

#[test]
fn the_index_lists_are_sorted_and_hold_every_document_once() {
    let (db, mut disk) = open();
    let payloads = [r#"{"n":5}"#, r#"{"n":-1}"#, r#"{"n":3}"#, r#"{"n":3}"#, r#"{"m":1}"#, r#"{"n":[1]}"#, r#"{"n":0.5}"#];
    let all: Vec<String> = payloads.iter().map(|p| insert(&db, &mut disk, "things", p)).collect();
    let index = json(&disk.index().unwrap());
    let list = index.get(&"things".to_string()).unwrap().get(&"n".to_string()).unwrap();
    let entries = discorde_api::index::read_entries(list).unwrap();
    let values: Vec<String> = entries.iter().map(|e| text(&e.0)).collect();
    assert_eq!(values, vec!["-1", "0.5", "3", "3", "5"]);
    let want = vec![all[1].clone(), all[6].clone(), all[2].clone(), all[3].clone(), all[0].clone()];
    let got: Vec<String> = entries.iter().map(|e| e.1.clone()).collect();
    assert_eq!(got, want);
    for (value, id) in entries.iter() {
        let held = doc(&db, &disk, "things", id).get(&disk).unwrap().unwrap();
        assert_eq!(text(held.get(&"n".to_string()).unwrap()), text(value));
    }
}

#[test]
fn each_condition_finds_its_documents() {
    let (db, mut disk) = open();
    let a = insert(&db, &mut disk, "things", r#"{"n":1}"#);
    let b = insert(&db, &mut disk, "things", r#"{"n":2}"#);
    let c = insert(&db, &mut disk, "things", r#"{"n":2}"#);
    let d = insert(&db, &mut disk, "things", r#"{"n":3}"#);
    let q = |cond, v: &str| query(&db, &disk, "things", "n", cond, v);
    assert_eq!(q(Condition::Less, "2"), vec![a.clone()]);
    assert_eq!(q(Condition::LessOrEqual, "2"), vec![a.clone(), b.clone(), c.clone()]);
    assert_eq!(q(Condition::Equal, "2"), vec![b.clone(), c.clone()]);
    assert_eq!(q(Condition::NotEqual, "2"), vec![a.clone(), d.clone()]);
    assert_eq!(q(Condition::Greater, "2"), vec![d.clone()]);
    assert_eq!(q(Condition::GreaterOrEqual, "2"), vec![b, c, d]);
    assert_eq!(q(Condition::Equal, "2.5"), Vec::<String>::new());
}

#[test]
fn narrowing_keeps_what_both_searches_find() {
    let (db, mut disk) = open();
    let a = insert(&db, &mut disk, "things", r#"{"n":1,"s":"x"}"#);
    let b = insert(&db, &mut disk, "things", r#"{"n":2,"s":"y"}"#);
    let c = insert(&db, &mut disk, "things", r#"{"n":3,"s":"x"}"#);
    let d = insert(&db, &mut disk, "things", r#"{"n":4,"s":"x"}"#);
    let things = db.clone().collection("things", &disk);
    let mut found = Where::new(things.copy(), "n".to_string(), Condition::Greater, json("1"), &disk).unwrap();
    assert_eq!(ids(found.clone().get()), vec![b.clone(), c.clone(), d.clone()]);
    let narrowed = found.wherr("s".to_string(), Condition::Equal, json(r#""x""#), &disk).unwrap();
    let first = query(&db, &disk, "things", "n", Condition::Greater, "1");
    let second = query(&db, &disk, "things", "s", Condition::Equal, r#""x""#);
    assert_eq!(sorted(second.clone()), sorted(vec![a, c.clone(), d.clone()]));
    let both: Vec<String> = second.iter().filter(|id| first.contains(id)).cloned().collect();
    assert_eq!(ids(narrowed.get()), both);
    assert_eq!(sorted(ids(found.get())), sorted(vec![c, d]));
}

#[test]
fn narrowing_fails_as_the_search_does_and_keeps_the_query() {
    let (db, mut disk) = open();
    let a = insert(&db, &mut disk, "things", r#"{"n":1}"#);
    let mut found = db.clone().collection("things", &disk).wherr("n".to_string(), Condition::Equal, json("1"), &disk).unwrap();
    disk.set_index(None);
    assert!(matches!(found.wherr("n".to_string(), Condition::Equal, json("1"), &disk), Err(StoreError::Io)));
    assert_eq!(ids(found.get()), vec![a]);
}

#[test]
fn merge_puts_each_member_in_turn() {
    let mut content = match json(r#"{"a":1,"b":2}"#) {
        Json::Object(m) => m,
        _ => unreachable!(),
    };
    let partial = vec![
        ("b".to_string(), json("3")),
        ("c".to_string(), json("4")),
        ("b".to_string(), json("5")),
    ];
    merge(&mut content, &partial);
    let keys: Vec<&str> = content.iter().map(|m| m.0.as_str()).collect();
    assert_eq!(keys, vec!["a", "b", "c"]);
    assert_eq!(text(&Json::Object(content)), r#"{"a":1,"b":5,"c":4}"#);
}

#[test]
fn the_image_keeps_files_and_directories() {
    let mut disk = Disk::new();
    let dir = "d".to_string();
    assert!(!disk.is_dir(&dir));
    disk.make_dir(&dir);
    disk.make_dir(&dir);
    assert!(disk.is_dir(&dir));
    assert_eq!(disk.dirs(), vec![dir.clone()]);
    disk.write(&dir, &"a".to_string(), "1".to_string());
    disk.write(&"e".to_string(), &"a".to_string(), "2".to_string());
    disk.write(&dir, &"b".to_string(), "3".to_string());
    disk.write(&dir, &"a".to_string(), "4".to_string());
    assert!(disk.is_file(&dir, &"a".to_string()));
    assert!(!disk.is_file(&dir, &"c".to_string()));
    assert_eq!(disk.read(&dir, &"a".to_string()), Some("4".to_string()));
    assert_eq!(disk.read(&"e".to_string(), &"a".to_string()), Some("2".to_string()));
    assert_eq!(disk.read(&dir, &"c".to_string()), None);
    assert_eq!(
        disk.list(&dir),
        vec![("a".to_string(), "4".to_string()), ("b".to_string(), "3".to_string())]
    );
    assert!(disk.remove(&dir, &"a".to_string()));
    assert!(!disk.remove(&dir, &"a".to_string()));
    assert_eq!(disk.list(&dir), vec![("b".to_string(), "3".to_string())]);
    assert_eq!(disk.docs().len(), 2);
}

#[test]
fn handles_are_copied_with_what_they_saw() {
    let (db, mut disk) = open();
    let id = insert(&db, &mut disk, "things", r#"{"a":1}"#);
    let things = db.clone().collection("things", &disk);
    let twin = things.copy();
    let clone = things.clone();
    assert_eq!(twin.path(), things.path());
    assert_eq!(clone.name, things.name);
    assert_eq!(twin.exist, things.exist);
    assert!(twin.seen());
    assert!(twin.db().is_locked());
    let d = things.doc(&id, &disk);
    let pair = IdDocument::new(id.clone(), d.clone());
    assert_eq!(pair.id, id);
    assert_eq!(pair.clone().doc.path(), d.path());
    assert!(d.seen());
    assert_eq!(d.parent().path(), "database/things");
}
