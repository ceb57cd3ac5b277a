use discorde_api::chat::WsCommand;
use discorde_api::database::{read_user, Database, Reply, Request};
use discorde_api::disk::Disk;
use discorde_api::error::StoreError;
use discorde_api::json::{parse, to_text};
use discorde_api::models::chat::{Chat, ChatInput, Message};
use discorde_api::models::codec::{strings_from_json, strings_to_json};
use discorde_api::models::creds::{Credentials, Login};
use discorde_api::models::user::{copy_names, User, UserInput};

fn user(name: &str, password: &str, chats: &[&str]) -> User {
    User {
        username: name.to_string(),
        password: password.to_string(),
        chats: chats.iter().map(|c| c.to_string()).collect(),
    }
}

fn message(timestamp: u64, author: &str, text: &str) -> Message {
    Message { timestamp, author: author.to_string(), message: text.to_string() }
}

fn instants(chat: &Chat) -> Vec<u64> {
    chat.messages.iter().map(|m| m.timestamp).collect()
}

fn store() -> (Database, Disk) {
    let mut disk = Disk::new();
    let store = Database::new("database".to_string(), "41".to_string(), false, &mut disk).unwrap();
    (store, disk)
}

#[test]
fn an_input_becomes_a_user_without_chats() {
    let input = UserInput { username: "ann".to_string(), password: "pw".to_string() };
    let user = input.into_user();
    assert_eq!(user.username, "ann");
    assert_eq!(user.password, "pw");
    assert!(user.chats.is_empty());
}

#[test]
fn a_user_is_shown_without_its_password() {
    let view = user("ann", "pw", &["c1", "c2"]).into_view();
    assert_eq!(view.username, "ann");
    assert_eq!(view.chats, vec!["c1".to_string(), "c2".to_string()]);
    let login = Login { username: "ann".to_string(), password: "pw".to_string() };
    let credentials = Credentials { token: login.username.clone(), user: view };
    assert_eq!(credentials.token, "ann");
    assert_eq!(credentials.user.username, "ann");
    assert_eq!(login.password, "pw");
}

#[test]
fn an_input_becomes_a_chat_without_messages() {
    let input = ChatInput { private: true, name: "g".to_string(), members: vec!["a".to_string()] };
    let chat = input.into_chat();
    assert!(chat.private);
    assert_eq!(chat.name, "g");
    assert_eq!(chat.members, vec!["a".to_string()]);
    assert!(chat.messages.is_empty());
}

#[test]
fn a_chat_is_shown_with_its_identifier() {
    let input = ChatInput { private: false, name: "g".to_string(), members: vec!["a".to_string(), "b".to_string()] };
    let mut chat = input.into_chat();
    chat.insert(message(1, "a", "hi"));
    let view = chat.into_view("id-1".to_string());
    assert_eq!(view.id, "id-1");
    assert!(!view.private);
    assert_eq!(view.name, "g");
    assert_eq!(view.members, vec!["a".to_string(), "b".to_string()]);
}

#[test]
fn messages_are_kept_by_instant_one_for_each() {
    let mut chat = ChatInput { private: false, name: "g".to_string(), members: vec![] }.into_chat();
    assert!(chat.insert(message(5, "a", "five")));
    assert!(chat.insert(message(1, "a", "one")));
    assert!(chat.insert(message(9, "a", "nine")));
    assert!(chat.insert(message(3, "a", "three")));
    assert!(!chat.insert(message(5, "b", "again")));
    assert!(!chat.insert(message(1, "b", "again")));
    assert_eq!(instants(&chat), vec![1, 3, 5, 9]);
    assert_eq!(chat.messages[2].message, "five");
    assert_eq!(chat.messages[2].author, "a");
    let twin = chat.clone();
    assert_eq!(instants(&twin), vec![1, 3, 5, 9]);
    assert_eq!(twin.name, "g");
}

#[test]
fn messages_are_compared_by_instant() {
    let a = message(1, "a", "x");
    let b = message(1, "b", "y");
    let c = message(2, "a", "x");
    assert!(a.same(&b));
    assert!(!a.same(&c));
    assert!(a.before(&c));
    assert!(!c.before(&a));
    assert!(!a.before(&b));
    assert!(a == b);
    assert!(a != c);
    assert!(a < c);
    assert!(c > b);
    assert!(a <= b && a >= b);
    assert_eq!(a.partial_cmp(&c), Some(std::cmp::Ordering::Less));
    assert_eq!(c.partial_cmp(&a), Some(std::cmp::Ordering::Greater));
    assert_eq!(a.partial_cmp(&b), Some(std::cmp::Ordering::Equal));
    let command = WsCommand { from: "a".to_string(), message: c.clone() };
    let twin = command.clone();
    assert_eq!(twin.from, "a");
    assert_eq!(twin.message.timestamp, 2);
    assert_eq!(twin.message.message, "x");
}

#[test]
fn a_user_is_written_as_json_and_read_back() {
    let ann = user("ann", "pw", &["c1", "c2"]);
    let json = ann.to_json();
    assert_eq!(to_text(&json).unwrap(), r#"{"chats":["c1","c2"],"password":"pw","username":"ann"}"#);
    let back = User::from_json(&json).unwrap();
    assert_eq!(back.username, "ann");
    assert_eq!(back.password, "pw");
    assert_eq!(back.chats, vec!["c1".to_string(), "c2".to_string()]);
    let twin = ann.clone();
    assert_eq!(twin.chats, ann.chats);
    assert_eq!(copy_names(&ann.chats), ann.chats);
}

#[test]
fn what_is_no_user_is_not_read_as_one() {
    for text in [
        r#"{"username":"a","password":"b"}"#,
        r#"{"username":"a","chats":[]}"#,
        r#"{"password":"a","chats":[]}"#,
        r#"{"username":1,"password":"b","chats":[]}"#,
        r#"{"username":"a","password":"b","chats":[1]}"#,
        r#"{"username":"a","password":"b","chats":"c"}"#,
        r#"["a","b",[]]"#,
    ] {
        assert!(User::from_json(&parse(text).unwrap()).is_none(), "{}", text);
    }
    let extra = parse(r#"{"username":"a","password":"b","chats":[],"more":1}"#).unwrap();
    assert!(User::from_json(&extra).is_some());
}

#[test]
fn a_list_of_strings_is_written_and_read_back() {
    let names = vec!["a".to_string(), "b".to_string()];
    let json = strings_to_json(&names);
    assert_eq!(to_text(&json).unwrap(), r#"["a","b"]"#);
    assert_eq!(strings_from_json(&json), Some(names));
    assert_eq!(strings_from_json(&parse("[]").unwrap()), Some(vec![]));
    assert_eq!(strings_from_json(&parse(r#"["a",1]"#).unwrap()), None);
    assert_eq!(strings_from_json(&parse(r#"{"a":1}"#).unwrap()), None);
}

#[test]
fn a_message_is_written_as_json_and_read_back() {
    let json = message(7, "a", "hi").to_json();
    assert_eq!(to_text(&json).unwrap(), r#"{"author":"a","message":"hi","timestamp":7}"#);
    let back = Message::from_json(&json).unwrap();
    assert_eq!((back.timestamp, back.author.as_str(), back.message.as_str()), (7, "a", "hi"));
    for text in [
        r#"{"author":"a","message":"hi"}"#,
        r#"{"author":"a","message":"hi","timestamp":-1}"#,
        r#"{"author":"a","message":"hi","timestamp":1.5}"#,
        r#"{"author":"a","message":"hi","timestamp":"1"}"#,
        r#"{"author":1,"message":"hi","timestamp":1}"#,
        r#"{"author":"a","message":null,"timestamp":1}"#,
    ] {
        assert!(Message::from_json(&parse(text).unwrap()).is_none(), "{}", text);
    }
}

#[test]
fn a_chat_is_written_as_json_and_read_back() {
    let mut chat = ChatInput { private: true, name: "g".to_string(), members: vec!["a".to_string()] }.into_chat();
    chat.insert(message(2, "a", "two"));
    chat.insert(message(1, "b", "one"));
    let json = chat.to_json();
    assert_eq!(
        to_text(&json).unwrap(),
        r#"{"members":["a"],"messages":[{"author":"b","message":"one","timestamp":1},{"author":"a","message":"two","timestamp":2}],"name":"g","private":true}"#
    );
    let back = Chat::from_json(&json).unwrap();
    assert!(back.private);
    assert_eq!(back.name, "g");
    assert_eq!(back.members, vec!["a".to_string()]);
    assert_eq!(instants(&back), vec![1, 2]);
}

#[test]
fn a_chat_is_read_with_its_messages_in_order_and_one_for_each_instant() {
    let text = r#"{"private":false,"name":"g","members":[],"messages":[
        {"timestamp":3,"author":"a","message":"three"},
        {"timestamp":1,"author":"a","message":"one"},
        {"timestamp":3,"author":"b","message":"late"}]}"#;
    let chat = Chat::from_json(&parse(text).unwrap()).unwrap();
    assert_eq!(instants(&chat), vec![1, 3]);
    assert_eq!(chat.messages[1].message, "three");
    for text in [
        r#"{"name":"g","members":[],"messages":[]}"#,
        r#"{"private":false,"name":"g","members":[]}"#,
        r#"{"private":false,"name":"g","members":[],"messages":{}}"#,
        r#"{"private":false,"name":"g","members":[],"messages":[{"timestamp":1}]}"#,
        r#"{"private":"no","name":"g","members":[],"messages":[]}"#,
        r#"{"private":false,"name":"g","members":[3],"messages":[]}"#,
    ] {
        assert!(Chat::from_json(&parse(text).unwrap()).is_none(), "{}", text);
    }
}

#[test]
fn opening_the_store_takes_the_lock() {
    let (store, mut disk) = store();
    assert!(store.db().is_locked());
    assert_eq!(disk.lock(), Some("41".to_string()));
    assert_eq!(disk.index(), Some("{}".to_string()));
    match Database::new("database".to_string(), "42".to_string(), true, &mut disk) {
        Err(StoreError::AlreadyLocked(pid)) => assert_eq!(pid, "41"),
        _ => panic!("the lock was not refused"),
    }
    let second = Database::new("database".to_string(), "42".to_string(), false, &mut disk).unwrap();
    assert_eq!(second.db().pid(), "42");
    assert_eq!(disk.lock(), Some("42".to_string()));
}

#[test]
fn users_are_inserted_found_listed_and_updated() {
    let (store, mut disk) = store();
    assert!(store.get_user("ann".to_string(), &disk).unwrap().is_none());
    assert!(store.get_users(&disk).is_empty());
    store.insert_user(user("ann", "pw", &[]), &mut disk).unwrap();
    store.insert_user(user("bob", "pw2", &["c"]), &mut disk).unwrap();
    let ann = store.get_user("ann".to_string(), &disk).unwrap().unwrap();
    assert_eq!((ann.username.as_str(), ann.password.as_str()), ("ann", "pw"));
    assert!(store.get_user("cid".to_string(), &disk).unwrap().is_none());
    let names: Vec<String> = store.get_users(&disk).into_iter().map(|u| u.username).collect();
    assert_eq!(names, vec!["ann".to_string(), "bob".to_string()]);
    store.update_user(user("ann", "new", &["c1"]), &mut disk).unwrap();
    let ann = store.get_user("ann".to_string(), &disk).unwrap().unwrap();
    assert_eq!(ann.password, "new");
    assert_eq!(ann.chats, vec!["c1".to_string()]);
    let before = disk.docs();
    store.update_user(user("nobody", "x", &[]), &mut disk).unwrap();
    assert_eq!(disk.docs(), before);
}

#[test]
fn documents_that_are_no_users_are_passed_over() {
    let (store, mut disk) = store();
    store.insert_user(user("ann", "pw", &[]), &mut disk).unwrap();
    let users = store.db().clone().collection("users", &disk);
    users.add(parse(r#"{"username":"odd"}"#).unwrap(), &mut disk).unwrap();
    disk.write(&"database/users".to_string(), &"broken".to_string(), "{".to_string());
    store.insert_user(user("bob", "pw", &[]), &mut disk).unwrap();
    let names: Vec<String> = store.get_users(&disk).into_iter().map(|u| u.username).collect();
    assert_eq!(names, vec!["ann".to_string(), "bob".to_string()]);
    assert!(matches!(store.get_user("odd".to_string(), &disk), Err(StoreError::Malformed)));
    let broken = store.db().clone().collection("users", &disk).doc("broken", &disk);
    assert!(matches!(read_user(broken, &disk), Err(StoreError::Malformed)));
}

#[test]
fn a_message_for_a_chat_that_is_not_there_is_dropped() {
    let (store, mut disk) = store();
    let before = disk.docs();
    store.insert_message("nobody".to_string(), message(1, "a", "hi"), &mut disk).unwrap();
    assert_eq!(disk.docs(), before);
    assert!(store.get_chat("nobody".to_string(), &disk).unwrap().is_none());
}

#[test]
fn a_second_message_of_one_instant_is_not_kept() {
    let (store, mut disk) = store();
    let chat = ChatInput { private: false, name: "g".to_string(), members: vec![] }.into_chat();
    let id = store.insert_chat(chat, &mut disk).unwrap();
    store.insert_message(id.clone(), message(1, "a", "first"), &mut disk).unwrap();
    store.insert_message(id.clone(), message(1, "b", "second"), &mut disk).unwrap();
    let got = store.get_chat(id, &disk).unwrap().unwrap();
    assert_eq!(got.messages.len(), 1);
    assert_eq!(got.messages[0].message, "first");
}

#[test]
fn every_request_gets_its_reply() {
    let (store, mut disk) = store();
    assert!(matches!(store.handle(Request::InsertUser(user("ann", "pw", &[])), &mut disk), Reply::Done(Ok(()))));
    match store.handle(Request::GetUser("ann".to_string()), &mut disk) {
        Reply::User(Ok(Some(u))) => assert_eq!(u.username, "ann"),
        other => panic!("no user: {:?}", other),
    }
    match store.handle(Request::GetUsers, &mut disk) {
        Reply::Users(users) => assert_eq!(users.len(), 1),
        other => panic!("no users: {:?}", other),
    }
    assert!(matches!(store.handle(Request::UpdateUser(user("ann", "pw2", &[])), &mut disk), Reply::Done(Ok(()))));
    let chat = ChatInput { private: false, name: "g".to_string(), members: vec!["ann".to_string()] }.into_chat();
    let id = match store.handle(Request::InsertChat(chat), &mut disk) {
        Reply::Id(Ok(id)) => id,
        other => panic!("no id: {:?}", other),
    };
    assert!(matches!(
        store.handle(Request::InsertMessage(id.clone(), message(4, "ann", "hi")), &mut disk),
        Reply::Done(Ok(()))
    ));
    match store.handle(Request::GetChat(id), &mut disk) {
        Reply::Chat(Ok(Some(chat))) => assert_eq!(instants(&chat), vec![4]),
        other => panic!("no chat: {:?}", other),
    }
    disk.set_index(None);
    assert!(matches!(store.handle(Request::GetUser("ann".to_string()), &mut disk), Reply::User(Err(StoreError::Io))));
    assert!(matches!(
        store.handle(Request::UpdateUser(user("ann", "pw3", &[])), &mut disk),
        Reply::Done(Err(StoreError::Io))
    ));
}
