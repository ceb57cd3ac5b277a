//! Chats and their messages.

use vstd::prelude::*;
use std::cmp::Ordering;
use vstd::std_specs::cmp::{PartialEqSpecImpl, PartialOrdSpecImpl};
use crate::disk::names_view;
use crate::models::user::copy_names;

verus! {

/// A message of a chat. Two messages of one instant count as the same
/// message, whoever wrote them.
#[derive(Debug)]
pub struct Message {
    pub timestamp: u64,
    pub author: String,
    pub message: String,
}

/// The mathematical value of a [`Message`].
pub struct MessageData {
    pub timestamp: u64,
    pub author: Seq<char>,
    pub message: Seq<char>,
}

impl View for Message {
    type V = MessageData;

    open spec fn view(&self) -> MessageData {
        MessageData { timestamp: self.timestamp, author: self.author@, message: self.message@ }
    }
}

/// The views of a list of messages.
pub open spec fn messages_view(messages: Seq<Message>) -> Seq<MessageData> {
    Seq::new(messages.len(), |i: int| messages[i]@)
}

impl Clone for Message {
    fn clone(&self) -> (message: Message)
        ensures
            message@ == self@,
    {
        Message {
            timestamp: self.timestamp,
            author: self.author.clone(),
            message: self.message.clone(),
        }
    }
}

/// Messages are equal where their instants are.
impl PartialEq for Message {
    fn eq(&self, other: &Self) -> (same: bool) {
        self.timestamp == other.timestamp
    }
}

impl PartialEqSpecImpl for Message {
    open spec fn obeys_eq_spec() -> bool {
        true
    }

    open spec fn eq_spec(&self, other: &Self) -> bool {
        self.timestamp == other.timestamp
    }
}

impl Eq for Message {

}

/// Messages are ordered by their instants.
impl PartialOrd for Message {
    fn partial_cmp(&self, other: &Self) -> (order: Option<Ordering>) {
        if self.timestamp < other.timestamp {
            Some(Ordering::Less)
        } else if self.timestamp == other.timestamp {
            Some(Ordering::Equal)
        } else {
            Some(Ordering::Greater)
        }
    }
}

impl PartialOrdSpecImpl for Message {
    open spec fn obeys_partial_cmp_spec() -> bool {
        true
    }

    open spec fn partial_cmp_spec(&self, other: &Self) -> Option<Ordering> {
        if self.timestamp < other.timestamp {
            Some(Ordering::Less)
        } else if self.timestamp == other.timestamp {
            Some(Ordering::Equal)
        } else {
            Some(Ordering::Greater)
        }
    }
}

impl Message {
    /// Whether the two messages are of one instant.
    pub fn same(&self, other: &Message) -> (same: bool)
        ensures
            same == (self.timestamp == other.timestamp),
    {
        self.timestamp == other.timestamp
    }

    /// Whether this message is of an earlier instant than the other.
    pub fn before(&self, other: &Message) -> (before: bool)
        ensures
            before == (self.timestamp < other.timestamp),
    {
        self.timestamp < other.timestamp
    }
}

/// What a client sends to create a chat.
#[derive(Debug)]
pub struct ChatInput {
    pub private: bool,
    pub name: String,
    pub members: Vec<String>,
}

/// The instants of the messages rise from each to the next.
pub open spec fn rising(messages: Seq<MessageData>) -> bool {
    forall|i: int, j: int|
        0 <= i < j < messages.len() ==> (#[trigger] messages[i]).timestamp < (
        #[trigger] messages[j]).timestamp
}

/// Whether one of the messages is of the given instant.
pub open spec fn has_instant(messages: Seq<MessageData>, timestamp: u64) -> bool {
    exists|i: int| 0 <= i < messages.len() && (#[trigger] messages[i]).timestamp == timestamp
}

/// How many of the messages are of an earlier instant than the given one,
/// where their instants rise.
pub open spec fn earlier(messages: Seq<MessageData>, timestamp: u64) -> int
    decreases messages.len(),
{
    if messages.len() == 0 {
        0
    } else if messages.last().timestamp < timestamp {
        messages.len() as int
    } else {
        earlier(messages.drop_last(), timestamp)
    }
}

/// The messages with one more put at the place of its instant, unless they
/// have a message of that instant already.
pub open spec fn put_message(messages: Seq<MessageData>, message: MessageData) -> Seq<MessageData> {
    if has_instant(messages, message.timestamp) {
        messages
    } else {
        messages.insert(earlier(messages, message.timestamp), message)
    }
}

/// A chat as the store keeps it.
#[derive(Debug)]
pub struct Chat {
    pub private: bool,
    pub name: String,
    pub members: Vec<String>,
    /// The messages by rising instant, one for each instant.
    pub messages: Vec<Message>,
}

/// The mathematical value of a [`Chat`].
pub struct ChatData {
    pub private: bool,
    pub name: Seq<char>,
    pub members: Seq<Seq<char>>,
    pub messages: Seq<MessageData>,
}

impl View for Chat {
    type V = ChatData;

    open spec fn view(&self) -> ChatData {
        ChatData {
            private: self.private,
            name: self.name@,
            members: names_view(self.members@),
            messages: messages_view(self.messages@),
        }
    }
}

impl Clone for Chat {
    fn clone(&self) -> (chat: Chat)
        ensures
            chat@ == self@,
            self.wf() ==> chat.wf(),
    {
        let mut messages: Vec<Message> = Vec::new();
        let mut i: usize = 0;
        while i < self.messages.len()
            invariant
                i <= self.messages.len(),
                messages.len() == i,
                forall|j: int| 0 <= j < i ==> messages[j]@ == self.messages[j]@,
            decreases self.messages.len() - i,
        {
            messages.push(self.messages[i].clone());
            i += 1;
        }
        assert(messages_view(messages@) =~= messages_view(self.messages@));
        Chat {
            private: self.private,
            name: self.name.clone(),
            members: copy_names(&self.members),
            messages,
        }
    }
}

/// A chat as it is shown: with its identifier, without its messages.
#[derive(Debug)]
pub struct ChatView {
    pub id: String,
    pub private: bool,
    pub name: String,
    pub members: Vec<String>,
}

impl ChatInput {
    /// The chat that the input creates: one without messages.
    pub fn into_chat(self) -> (chat: Chat)
        ensures
            chat.private == self.private,
            chat.name == self.name,
            chat.members == self.members,
            chat.messages@ == Seq::<Message>::empty(),
            chat.wf(),
    {
        let chat = Chat {
            private: self.private,
            name: self.name,
            members: self.members,
            messages: Vec::new(),
        };
        assert(messages_view(chat.messages@) =~= Seq::empty());
        chat
    }
}

impl Chat {
    /// The chat is well formed: the instants of its messages rise.
    pub open spec fn wf(&self) -> bool {
        rising(messages_view(self.messages@))
    }

    /// The chat as it is shown under the identifier `id`.
    pub fn into_view(self, id: String) -> (view: ChatView)
        ensures
            view.id == id,
            view.private == self.private,
            view.name == self.name,
            view.members == self.members,
    {
        ChatView { id, private: self.private, name: self.name, members: self.members }
    }

    /// Puts a message into the chat at the place of its instant, unless the
    /// chat has a message of that instant already; says whether it was put.
    pub fn insert(&mut self, message: Message) -> (put: bool)
        requires
            old(self).wf(),
        ensures
            final(self).wf(),
            put == !has_instant(old(self)@.messages, message.timestamp),
            final(self)@ == (ChatData {
                messages: put_message(old(self)@.messages, message@),
                ..old(self)@
            }),
    {
        let ghost all = messages_view(self.messages@);
        let mut p: usize = self.messages.len();
        assert(all.take(p as int) =~= all);
        while p > 0 && self.messages[p - 1].timestamp >= message.timestamp
            invariant
                p <= self.messages.len(),
                all == messages_view(self.messages@),
                rising(all),
                earlier(all, message.timestamp) == earlier(all.take(p as int), message.timestamp),
                forall|j: int| p <= j < all.len() ==> (#[trigger] all[j]).timestamp >= message.timestamp,
            decreases p,
        {
            assert(all[p - 1] == self.messages[p - 1]@);
            assert(all.take(p as int).drop_last() =~= all.take(p - 1));
            assert(all.take(p as int).last() == all[p - 1]);
            p -= 1;
        }
        proof {
            if p > 0 {
                assert(all[p - 1] == self.messages[p - 1]@);
                assert(all.take(p as int).last() == all[p - 1]);
            }
            if p < all.len() {
                assert(all[p as int] == self.messages[p as int]@);
            }
        }
        if p < self.messages.len() && self.messages[p].timestamp == message.timestamp {
            return false;
        }
        proof {
            if has_instant(all, message.timestamp) {
                let i = choose|i: int| 0 <= i < all.len() && (#[trigger] all[i]).timestamp
                    == message.timestamp;
                if i < p {
                    assert(all[i].timestamp < all[p - 1].timestamp || i == p - 1);
                } else if i > p {
                    assert(all[p as int].timestamp < all[i].timestamp);
                }
            }
        }
        self.messages.insert(p, message);
        proof {
            let after = messages_view(self.messages@);
            assert(after =~= all.insert(p as int, message@));
            assert forall|i: int, j: int| 0 <= i < j < after.len() implies (#[trigger] after[i]).timestamp
                < (#[trigger] after[j]).timestamp by {
                if j < p {
                    assert(after[i] == all[i] && after[j] == all[j]);
                } else if j == p {
                    assert(after[i] == all[i]);
                    assert(all[i].timestamp < all[p - 1].timestamp || i == p - 1);
                } else if i == p {
                    assert(after[j] == all[j - 1]);
                    assert(all[p as int].timestamp < all[j - 1].timestamp || j - 1 == p);
                } else if i < p {
                    assert(after[i] == all[i] && after[j] == all[j - 1]);
                } else {
                    assert(after[i] == all[i - 1] && after[j] == all[j - 1]);
                }
            }
        }
        true
    }
}

} // verus!
