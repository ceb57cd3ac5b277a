//! The JSON that the store keeps for users, chats and messages: an object
//! with one member for each field, under the field's name.

use vstd::prelude::*;
use crate::disk::names_view;
use crate::models::chat::{
    earlier, has_instant, messages_view, put_message, rising, Chat, ChatData, Message, MessageData,
};
use crate::models::user::{User, UserData};
use crate::value::{
    field, lemma_lookup_at, items_view, lemma_array_view, lemma_object_view, members_view, Json, JsonView, Num,
    Number,
};

verus! {

/// The JSON for a list of strings: the array of them.
pub open spec fn strings_json(names: Seq<Seq<char>>) -> JsonView {
    JsonView::Array(Seq::new(names.len(), |i: int| JsonView::String(names[i])))
}

/// The list of strings that a JSON value holds: the value is an array of strings.
pub open spec fn json_strings(value: JsonView) -> Option<Seq<Seq<char>>> {
    match value {
        JsonView::Array(items) => if forall|i: int| 0 <= i < items.len() ==> (#[trigger] items[i])
            is String {
            Some(Seq::new(items.len(), |i: int| items[i]->String_0))
        } else {
            None
        },
        _ => None,
    }
}

/// The JSON for a user.
pub open spec fn user_json(user: UserData) -> JsonView {
    JsonView::Object(
        seq![
            ("username"@, JsonView::String(user.username)),
            ("password"@, JsonView::String(user.password)),
            ("chats"@, strings_json(user.chats)),
        ],
    )
}

/// The user that a JSON value holds: the value has a string under
/// `username` and under `password`, and a list of strings under `chats`.
pub open spec fn json_user(value: JsonView) -> Option<UserData> {
    match (field(value, "username"@), field(value, "password"@), field(value, "chats"@)) {
        (Some(JsonView::String(username)), Some(JsonView::String(password)), Some(list)) => {
            match json_strings(list) {
                Some(chats) => Some(UserData { username, password, chats }),
                None => None,
            }
        },
        _ => None,
    }
}

/// The JSON for a message.
pub open spec fn message_json(message: MessageData) -> JsonView {
    JsonView::Object(
        seq![
            ("timestamp"@, JsonView::Number(Num::PosInt(message.timestamp))),
            ("author"@, JsonView::String(message.author)),
            ("message"@, JsonView::String(message.message)),
        ],
    )
}

/// The message that a JSON value holds: the value has a non-negative
/// integer under `timestamp`, and a string under `author` and under `message`.
pub open spec fn json_message(value: JsonView) -> Option<MessageData> {
    match (field(value, "timestamp"@), field(value, "author"@), field(value, "message"@)) {
        (
            Some(JsonView::Number(Num::PosInt(timestamp))),
            Some(JsonView::String(author)),
            Some(JsonView::String(message)),
        ) => Some(MessageData { timestamp, author, message }),
        _ => None,
    }
}

/// The JSON for a list of messages: the array of theirs.
pub open spec fn messages_json(messages: Seq<MessageData>) -> JsonView {
    JsonView::Array(Seq::new(messages.len(), |i: int| message_json(messages[i])))
}

/// The messages that the first `n` items hold, each put in turn at the place
/// of its instant; none where one of the items holds no message.
pub open spec fn gathered(items: Seq<JsonView>, n: int) -> Option<Seq<MessageData>>
    decreases n,
{
    if n <= 0 {
        Some(Seq::empty())
    } else {
        match (gathered(items, n - 1), json_message(items[n - 1])) {
            (Some(messages), Some(message)) => Some(put_message(messages, message)),
            _ => None,
        }
    }
}

/// The messages that a JSON value holds: the value is an array of messages.
pub open spec fn json_messages(value: JsonView) -> Option<Seq<MessageData>> {
    match value {
        JsonView::Array(items) => gathered(items, items.len() as int),
        _ => None,
    }
}

/// The JSON for a chat.
pub open spec fn chat_json(chat: ChatData) -> JsonView {
    JsonView::Object(
        seq![
            ("private"@, JsonView::Bool(chat.private)),
            ("name"@, JsonView::String(chat.name)),
            ("members"@, strings_json(chat.members)),
            ("messages"@, messages_json(chat.messages)),
        ],
    )
}

/// The chat that a JSON value holds: the value has a boolean under
/// `private`, a string under `name`, a list of strings under `members` and
/// a list of messages under `messages`.
pub open spec fn json_chat(value: JsonView) -> Option<ChatData> {
    match (
        field(value, "private"@),
        field(value, "name"@),
        field(value, "members"@),
        field(value, "messages"@),
    ) {
        (Some(JsonView::Bool(private)), Some(JsonView::String(name)), Some(list), Some(sent)) => {
            match (json_strings(list), json_messages(sent)) {
                (Some(members), Some(messages)) => Some(
                    ChatData { private, name, members, messages },
                ),
                _ => None,
            }
        },
        _ => None,
    }
}

/// The JSON for a list of strings.
pub fn strings_to_json(names: &Vec<String>) -> (json: Json)
    ensures
        json@ == strings_json(names_view(names@)),
{
    let mut items: Vec<Json> = Vec::new();
    let mut i: usize = 0;
    while i < names.len()
        invariant
            i <= names.len(),
            items.len() == i,
            forall|j: int| 0 <= j < i ==> items[j]@ == JsonView::String(names[j]@),
        decreases names.len() - i,
    {
        items.push(Json::String(names[i].clone()));
        i += 1;
    }
    proof {
        lemma_array_view(items);
        assert(items_view(items@) =~= strings_json(names_view(names@))->Array_0);
    }
    Json::Array(items)
}

/// The list of strings that a JSON value holds.
pub fn strings_from_json(value: &Json) -> (names: Option<Vec<String>>)
    ensures
        match names {
            Some(n) => json_strings(value@) == Some(names_view(n@)),
            None => json_strings(value@) is None,
        },
{
    match value {
        Json::Array(items) => {
            proof {
                lemma_array_view(*items);
            }
            let mut names: Vec<String> = Vec::new();
            let mut i: usize = 0;
            while i < items.len()
                invariant
                    i <= items.len(),
                    names.len() == i,
                    value@ == JsonView::Array(items_view(items@)),
                    forall|j: int|
                        0 <= j < i ==> (#[trigger] items_view(items@)[j]) == JsonView::String(
                            names[j]@,
                        ),
                decreases items.len() - i,
            {
                match &items[i] {
                    Json::String(name) => {
                        names.push(name.clone());
                    },
                    _ => {
                        assert(!(items_view(items@)[i as int] is String));
                        return None;
                    },
                }
                i += 1;
            }
            assert(json_strings(value@)->0 =~= names_view(names@));
            Some(names)
        },
        _ => None,
    }
}

impl User {
    /// The JSON for the user.
    pub fn to_json(&self) -> (json: Json)
        ensures
            json@ == user_json(self@),
    {
        let mut members: Vec<(String, Json)> = Vec::new();
        members.push(("username".to_string(), Json::String(self.username.clone())));
        members.push(("password".to_string(), Json::String(self.password.clone())));
        members.push(("chats".to_string(), strings_to_json(&self.chats)));
        proof {
            lemma_object_view(members);
            assert(members_view(members@) =~= user_json(self@)->Object_0);
        }
        Json::Object(members)
    }

    /// The user that a JSON value holds.
    pub fn from_json(value: &Json) -> (user: Option<User>)
        ensures
            match user {
                Some(u) => json_user(value@) == Some(u@),
                None => json_user(value@) is None,
            },
    {
        let username = match value.get(&"username".to_string()) {
            Some(Json::String(username)) => username.clone(),
            _ => {
                return None;
            },
        };
        let password = match value.get(&"password".to_string()) {
            Some(Json::String(password)) => password.clone(),
            _ => {
                return None;
            },
        };
        let chats = match value.get(&"chats".to_string()) {
            Some(list) => match strings_from_json(list) {
                Some(chats) => chats,
                None => {
                    return None;
                },
            },
            None => {
                return None;
            },
        };
        Some(User { username, password, chats })
    }
}

impl Message {
    /// The JSON for the message.
    pub fn to_json(&self) -> (json: Json)
        ensures
            json@ == message_json(self@),
    {
        let mut members: Vec<(String, Json)> = Vec::new();
        members.push(("timestamp".to_string(), Json::Number(Number::PosInt(self.timestamp))));
        members.push(("author".to_string(), Json::String(self.author.clone())));
        members.push(("message".to_string(), Json::String(self.message.clone())));
        proof {
            lemma_object_view(members);
            assert(members_view(members@) =~= message_json(self@)->Object_0);
        }
        Json::Object(members)
    }

    /// The message that a JSON value holds.
    pub fn from_json(value: &Json) -> (message: Option<Message>)
        ensures
            match message {
                Some(m) => json_message(value@) == Some(m@),
                None => json_message(value@) is None,
            },
    {
        let timestamp = match value.get(&"timestamp".to_string()) {
            Some(Json::Number(Number::PosInt(timestamp))) => *timestamp,
            _ => {
                return None;
            },
        };
        let author = match value.get(&"author".to_string()) {
            Some(Json::String(author)) => author.clone(),
            _ => {
                return None;
            },
        };
        let message = match value.get(&"message".to_string()) {
            Some(Json::String(message)) => message.clone(),
            _ => {
                return None;
            },
        };
        Some(Message { timestamp, author, message })
    }
}

impl Chat {
    /// The JSON for the chat.
    pub fn to_json(&self) -> (json: Json)
        ensures
            json@ == chat_json(self@),
    {
        let mut sent: Vec<Json> = Vec::new();
        let mut i: usize = 0;
        while i < self.messages.len()
            invariant
                i <= self.messages.len(),
                sent.len() == i,
                forall|j: int| 0 <= j < i ==> sent[j]@ == message_json(self.messages[j]@),
            decreases self.messages.len() - i,
        {
            sent.push(self.messages[i].to_json());
            i += 1;
        }
        proof {
            lemma_array_view(sent);
            assert(items_view(sent@) =~= messages_json(self@.messages)->Array_0);
        }
        let mut members: Vec<(String, Json)> = Vec::new();
        members.push(("private".to_string(), Json::Bool(self.private)));
        members.push(("name".to_string(), Json::String(self.name.clone())));
        members.push(("members".to_string(), strings_to_json(&self.members)));
        members.push(("messages".to_string(), Json::Array(sent)));
        proof {
            lemma_object_view(members);
            assert(members_view(members@) =~= chat_json(self@)->Object_0);
        }
        Json::Object(members)
    }

    /// The chat that a JSON value holds; its messages are in the order of
    /// their instants, one for each instant.
    pub fn from_json(value: &Json) -> (chat: Option<Chat>)
        ensures
            match chat {
                Some(c) => json_chat(value@) == Some(c@) && c.wf(),
                None => json_chat(value@) is None,
            },
    {
        let private = match value.get(&"private".to_string()) {
            Some(Json::Bool(private)) => *private,
            _ => {
                return None;
            },
        };
        let name = match value.get(&"name".to_string()) {
            Some(Json::String(name)) => name.clone(),
            _ => {
                return None;
            },
        };
        let members = match value.get(&"members".to_string()) {
            Some(list) => match strings_from_json(list) {
                Some(members) => members,
                None => {
                    return None;
                },
            },
            None => {
                return None;
            },
        };
        let sent = match value.get(&"messages".to_string()) {
            Some(Json::Array(sent)) => {
                proof {
                    lemma_array_view(*sent);
                }
                sent
            },
            _ => {
                return None;
            },
        };
        let mut chat = Chat { private, name, members, messages: Vec::new() };
        assert(messages_view(chat.messages@) =~= Seq::empty());
        let ghost start = chat@;
        let ghost items = items_view(sent@);
        let mut i: usize = 0;
        while i < sent.len()
            invariant
                i <= sent.len(),
                items == items_view(sent@),
                field(value@, "messages"@) == Some(JsonView::Array(items)),
                chat.wf(),
                gathered(items, i as int) == Some(chat@.messages),
                chat@ == (ChatData { messages: chat@.messages, ..start }),
            decreases sent.len() - i,
        {
            match Message::from_json(&sent[i]) {
                Some(message) => {
                    chat.insert(message);
                },
                None => {
                    assert(gathered(items, i + 1) is None);
                    assert(json_messages(JsonView::Array(items)) is None) by {
                        lemma_gathered_none(items, i + 1, items.len() as int);
                    }
                    return None;
                },
            }
            i += 1;
        }
        Some(chat)
    }
}

/// A user that is written as JSON is read back from it as the same user.
pub proof fn law_user_round_trip(user: UserData)
    ensures
        json_user(user_json(user)) == Some(user),
{
    reveal_strlit("username");
    reveal_strlit("password");
    reveal_strlit("chats");
    let members = user_json(user)->Object_0;
    assert("username"@ != "password"@) by {
        assert("username"@[0] != "password"@[0]);
    }
    assert("username"@ != "chats"@) by {
        assert("username"@[0] != "chats"@[0]);
    }
    assert("password"@ != "chats"@) by {
        assert("password"@[0] != "chats"@[0]);
    }
    lemma_lookup_at(members, "username"@, 0);
    lemma_lookup_at(members, "password"@, 1);
    lemma_lookup_at(members, "chats"@, 2);
    assert(field(user_json(user), "username"@) == Some(JsonView::String(user.username)));
    assert(field(user_json(user), "password"@) == Some(JsonView::String(user.password)));
    assert(field(user_json(user), "chats"@) == Some(strings_json(user.chats)));
    assert(json_strings(strings_json(user.chats))->0 =~= user.chats);
}

/// A message that is written as JSON is read back from it as the same message.
pub proof fn law_message_round_trip(message: MessageData)
    ensures
        json_message(message_json(message)) == Some(message),
{
    reveal_strlit("timestamp");
    reveal_strlit("author");
    reveal_strlit("message");
    let members = message_json(message)->Object_0;
    assert("timestamp"@ != "author"@) by {
        assert("timestamp"@[0] != "author"@[0]);
    }
    assert("timestamp"@ != "message"@) by {
        assert("timestamp"@[0] != "message"@[0]);
    }
    assert("author"@ != "message"@) by {
        assert("author"@[0] != "message"@[0]);
    }
    lemma_lookup_at(members, "timestamp"@, 0);
    lemma_lookup_at(members, "author"@, 1);
    lemma_lookup_at(members, "message"@, 2);
    assert(field(message_json(message), "timestamp"@) == Some(
        JsonView::Number(Num::PosInt(message.timestamp)),
    ));
    assert(field(message_json(message), "author"@) == Some(JsonView::String(message.author)));
    assert(field(message_json(message), "message"@) == Some(JsonView::String(message.message)));
}

/// Messages whose instants rise are gathered from their JSON as they are.
pub proof fn lemma_gathered_rising(messages: Seq<MessageData>, n: int)
    requires
        rising(messages),
        0 <= n <= messages.len(),
    ensures
        gathered(messages_json(messages)->Array_0, n) == Some(messages.take(n)),
    decreases n,
{
    let items = messages_json(messages)->Array_0;
    if n == 0 {
        assert(messages.take(0) =~= Seq::empty());
    } else {
        lemma_gathered_rising(messages, n - 1);
        law_message_round_trip(messages[n - 1]);
        let before = messages.take(n - 1);
        let last = messages[n - 1];
        assert(items[n - 1] == message_json(last));
        assert(!has_instant(before, last.timestamp)) by {
            if has_instant(before, last.timestamp) {
                let i = choose|i: int| 0 <= i < before.len() && (#[trigger] before[i]).timestamp
                    == last.timestamp;
                assert(before[i] == messages[i]);
            }
        }
        lemma_earlier_all(before, last.timestamp);
        assert(before.insert(before.len() as int, last) =~= messages.take(n));
    }
}

/// Where every message is of an earlier instant than the given one, all of
/// them are earlier.
pub proof fn lemma_earlier_all(messages: Seq<MessageData>, timestamp: u64)
    requires
        forall|i: int| 0 <= i < messages.len() ==> (#[trigger] messages[i]).timestamp < timestamp,
    ensures
        earlier(messages, timestamp) == messages.len(),
{
    if messages.len() > 0 {
        assert(messages.last() == messages[messages.len() - 1]);
    }
}

/// A chat whose messages are in the order of their instants, one for each
/// instant, is read back from its JSON as the same chat.
pub proof fn law_chat_round_trip(chat: ChatData)
    requires
        rising(chat.messages),
    ensures
        json_chat(chat_json(chat)) == Some(chat),
{
    reveal_strlit("private");
    reveal_strlit("name");
    reveal_strlit("members");
    reveal_strlit("messages");
    let members = chat_json(chat)->Object_0;
    assert("private"@ != "name"@) by {
        assert("private"@[0] != "name"@[0]);
    }
    assert("private"@ != "members"@) by {
        assert("private"@[0] != "members"@[0]);
    }
    assert("private"@ != "messages"@) by {
        assert("private"@[0] != "messages"@[0]);
    }
    assert("name"@ != "members"@) by {
        assert("name"@[0] != "members"@[0]);
    }
    assert("name"@ != "messages"@) by {
        assert("name"@[0] != "messages"@[0]);
    }
    assert("members"@ != "messages"@) by {
        assert("members"@[2] != "messages"@[2]);
    }
    lemma_lookup_at(members, "private"@, 0);
    lemma_lookup_at(members, "name"@, 1);
    lemma_lookup_at(members, "members"@, 2);
    lemma_lookup_at(members, "messages"@, 3);
    assert(field(chat_json(chat), "private"@) == Some(JsonView::Bool(chat.private)));
    assert(field(chat_json(chat), "name"@) == Some(JsonView::String(chat.name)));
    assert(field(chat_json(chat), "members"@) == Some(strings_json(chat.members)));
    assert(field(chat_json(chat), "messages"@) == Some(messages_json(chat.messages)));
    assert(json_strings(strings_json(chat.members))->0 =~= chat.members);
    lemma_gathered_rising(chat.messages, chat.messages.len() as int);
    assert(chat.messages.take(chat.messages.len() as int) =~= chat.messages);
}

/// Once an item holds no message, no longer prefix gathers messages.
pub proof fn lemma_gathered_none(items: Seq<JsonView>, n: int, m: int)
    requires
        0 <= n <= m,
        gathered(items, n) is None,
    ensures
        gathered(items, m) is None,
    decreases m - n,
{
    if n < m {
        lemma_gathered_none(items, n, m - 1);
    }
}

} // verus!
