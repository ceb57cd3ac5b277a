//! The requests that the chat service makes of the store, and what each does.
//!
//! One consumer owns the store and takes the requests one after another, so
//! no two of them interleave: each is a function from the image before to
//! the image after and the reply.

use vstd::prelude::*;
use crate::collection::{Collection, CollectionView};
use crate::db::{opened, Db, DbView};
use crate::disk::{Disk, DiskView};
use crate::document::{Document, IdDocument, IdDocumentView};
use crate::error::{unit_view, ErrorView, StoreError};
use crate::models::chat::{put_message, Chat, ChatData, Message, MessageData};
use crate::models::codec::{chat_json, json_chat, json_user, user_json};
use crate::models::user::{User, UserData};
use crate::query::{documents_view, Condition, Where};
use crate::value::{Json, JsonView};

verus! {

/// A request to the store.
#[derive(Debug)]
pub enum Request {
    /// Add a user.
    InsertUser(User),
    /// The user with the given name.
    GetUser(String),
    /// All users.
    GetUsers,
    /// Replace the fields of the user with the same name.
    UpdateUser(User),
    /// The chat with the given identifier.
    GetChat(String),
    /// Add a chat.
    InsertChat(Chat),
    /// Put a message into the chat with the given identifier.
    InsertMessage(String, Message),
}

/// The reply to a request.
#[derive(Debug)]
pub enum Reply {
    /// To `InsertUser`, `UpdateUser` and `InsertMessage`.
    Done(Result<(), StoreError>),
    /// To `GetUser`.
    User(Result<Option<User>, StoreError>),
    /// To `GetUsers`.
    Users(Vec<User>),
    /// To `GetChat`.
    Chat(Result<Option<Chat>, StoreError>),
    /// To `InsertChat`: the identifier of the new chat.
    Id(Result<String, StoreError>),
}

/// The store of the chat service.
pub struct Database {
    db: Db,
}

impl View for Database {
    type V = DbView;

    closed spec fn view(&self) -> DbView {
        self.db@
    }
}

/// The handle on the collection of users, as made on `disk`.
pub open spec fn users(db: DbView, disk: DiskView) -> CollectionView {
    Collection::opened(db, "users"@, db.base, disk)
}

/// The handle on the collection of chats, as made on `disk`.
pub open spec fn chats(db: DbView, disk: DiskView) -> CollectionView {
    Collection::opened(db, "chats"@, db.base, disk)
}

/// The user that a read of a document gives: `Malformed` where the
/// document holds no user.
pub open spec fn user_read(read: Result<Option<JsonView>, ErrorView>) -> Result<Option<UserData>, ErrorView> {
    match read {
        Ok(Some(value)) => match json_user(value) {
            Some(user) => Ok(Some(user)),
            None => Err(ErrorView::Malformed),
        },
        Ok(None) => Ok(None),
        Err(e) => Err(e),
    }
}

/// The chat that a read of a document gives: `Malformed` where the
/// document holds no chat.
pub open spec fn chat_read(read: Result<Option<JsonView>, ErrorView>) -> Result<Option<ChatData>, ErrorView> {
    match read {
        Ok(Some(value)) => match json_chat(value) {
            Some(chat) => Ok(Some(chat)),
            None => Err(ErrorView::Malformed),
        },
        Ok(None) => Ok(None),
        Err(e) => Err(e),
    }
}

/// The mathematical value of a reply with a user.
pub open spec fn user_view(r: Result<Option<User>, StoreError>) -> Result<Option<UserData>, ErrorView> {
    match r {
        Ok(Some(user)) => Ok(Some(user@)),
        Ok(None) => Ok(None),
        Err(e) => Err(e@),
    }
}

/// The mathematical value of a reply with a chat.
pub open spec fn chat_view(r: Result<Option<Chat>, StoreError>) -> Result<Option<ChatData>, ErrorView> {
    match r {
        Ok(Some(chat)) => Ok(Some(chat@)),
        Ok(None) => Ok(None),
        Err(e) => Err(e@),
    }
}

/// The views of a list of users.
pub open spec fn users_view(users: Seq<User>) -> Seq<UserData> {
    Seq::new(users.len(), |i: int| users[i]@)
}

/// The users that the first `n` of the documents hold, in order; a document
/// that cannot be read as a user is passed over.
pub open spec fn users_of(documents: Seq<IdDocumentView>, disk: DiskView, n: int) -> Seq<UserData>
    decreases n,
{
    if n <= 0 {
        Seq::empty()
    } else {
        let rest = users_of(documents, disk, n - 1);
        match user_read(Document::read(documents[n - 1].doc, disk)) {
            Ok(Some(user)) => rest.push(user),
            _ => rest,
        }
    }
}

/// Whether `documents` is what the search for the user `username` finds.
pub open spec fn user_found(
    db: DbView,
    username: Seq<char>,
    disk: DiskView,
    found: Result<Seq<IdDocumentView>, ErrorView>,
) -> bool {
    Where::finds(
        users(db, disk),
        "username"@,
        Condition::Equal,
        JsonView::String(username),
        disk,
        found,
    )
}

/// Whether `after` and `r` are what adding `data` to `collection` leaves
/// of `before`, for some fresh identifier.
pub open spec fn inserted(
    collection: CollectionView,
    data: JsonView,
    before: DiskView,
    after: DiskView,
    r: Result<(), ErrorView>,
) -> bool {
    exists|id: Seq<char>| #[trigger]
        Collection::added(collection, data, id, before) == (after, r) && id.len() == 36
}

/// Whether `r` is the reply to a request for the user `username`: the
/// error of the search; nothing where the search finds no document; and
/// else what the first document found reads as.
pub open spec fn user_got(
    db: DbView,
    username: Seq<char>,
    disk: DiskView,
    r: Result<Option<UserData>, ErrorView>,
) -> bool {
    ||| r matches Err(e) && user_found(db, username, disk, Err(e))
    ||| exists|found: Seq<IdDocumentView>| #[trigger]
        user_found(db, username, disk, Ok(found)) && r == if found.len() == 0 {
            Ok(None)
        } else {
            user_read(Document::read(found[0].doc, disk))
        }
}

/// Whether `after` and `r` are what an update of `user` leaves of `before`:
/// the error of the search, with nothing changed; nothing changed where the
/// search finds no document; and else the update of the first document
/// found with the JSON of `user`.
pub open spec fn user_updated(
    db: DbView,
    user: UserData,
    before: DiskView,
    after: DiskView,
    r: Result<(), ErrorView>,
) -> bool {
    ||| r matches Err(e) && user_found(db, user.username, before, Err(e)) && after == before
    ||| exists|found: Seq<IdDocumentView>| #[trigger]
        user_found(db, user.username, before, Ok(found)) && (after, r) == if found.len() == 0 {
            (before, Ok::<(), ErrorView>(()))
        } else {
            Document::updated(found[0].doc, user_json(user), before)
        }
}

/// All users of the image: what the documents of `users` read as, in
/// listing order; a document that cannot be read as a user is passed over.
pub open spec fn all_users(db: DbView, disk: DiskView) -> Seq<UserData> {
    if users(db, disk).exist {
        users_of(
            crate::collection::handles(users(db, disk), disk.listing(users(db, disk).path), disk),
            disk,
            disk.listing(users(db, disk).path).len() as int,
        )
    } else {
        Seq::empty()
    }
}

/// What a request for the chat `id` is answered with.
pub open spec fn chat_got(db: DbView, id: Seq<char>, disk: DiskView) -> Result<Option<ChatData>, ErrorView> {
    chat_read(Document::read(Document::opened(id, chats(db, disk), disk), disk))
}

/// The mathematical value of a reply with an identifier, without the identifier.
pub open spec fn id_view(r: Result<String, StoreError>) -> Result<(), ErrorView> {
    match r {
        Ok(_) => Ok(()),
        Err(e) => Err(e@),
    }
}

/// Whether `after` and `r` are what adding `chat` leaves of `before`: the
/// identifier returned is the one that the chat was added under.
pub open spec fn chat_inserted(
    db: DbView,
    chat: ChatData,
    before: DiskView,
    after: DiskView,
    r: Result<String, StoreError>,
) -> bool {
    match r {
        Ok(id) => id@.len() == 36 && Collection::added(
            chats(db, before),
            chat_json(chat),
            id@,
            before,
        ) == (after, Ok::<(), ErrorView>(())),
        Err(e) => inserted(chats(db, before), chat_json(chat), before, after, Err(e@)),
    }
}

/// The image after a message was put into the chat `id`, and the reply:
/// the chat is read, the message is put at the place of its instant, and
/// the chat's document is updated with the result; a chat that is not
/// there is left alone.
pub open spec fn message_put(db: DbView, id: Seq<char>, message: MessageData, disk: DiskView) -> (DiskView, Result<(), ErrorView>) {
    let document = Document::opened(id, chats(db, disk), disk);
    match chat_read(Document::read(document, disk)) {
        Err(e) => (disk, Err(e)),
        Ok(None) => (disk, Ok(())),
        Ok(Some(chat)) => Document::updated(
            document,
            chat_json(ChatData { messages: put_message(chat.messages, message), ..chat }),
            disk,
        ),
    }
}

impl Database {
    /// Opens the store at `base` for the process `pid` and takes its lock.
    ///
    /// `alive` is the outcome of the liveness probe of the process that the
    /// lock file names, and is not read where it names none or `pid`.
    pub fn new(base: String, pid: String, alive: bool, disk: &mut Disk) -> (r: Result<
        Database,
        StoreError,
    >)
        ensures
            old(disk).wf() ==> final(disk).wf(),
            match r {
                Ok(database) => {
                    &&& database@ == (DbView { base: base@, lock: true, pid: pid@ })
                    &&& final(disk)@ == (DiskView { lock: Some(pid@), ..opened(old(disk)@) })
                },
                Err(e) => {
                    &&& alive
                    &&& old(disk)@.lock matches Some(owner) && owner != pid@ && e@
                        == ErrorView::AlreadyLocked(owner)
                    &&& final(disk)@ == opened(old(disk)@)
                },
            },
    {
        let mut db = match Db::new(base, pid, disk) {
            Ok(db) => db,
            Err(e) => {
                return Err(e);
            },
        };
        match db.lock(disk, alive) {
            Ok(()) => Ok(Database { db }),
            Err(e) => Err(e),
        }
    }

    /// The root of the store.
    pub fn db(&self) -> (db: &Db)
        ensures
            db@ == self@,
    {
        &self.db
    }

    /// Adds a user to the collection `users`.
    pub fn insert_user(&self, user: User, disk: &mut Disk) -> (r: Result<(), StoreError>)
        requires
            old(disk).wf(),
        ensures
            final(disk).wf(),
            inserted(
                users(self@, old(disk)@),
                user_json(user@),
                old(disk)@,
                final(disk)@,
                unit_view(r),
            ),
    {
        let collection = self.db.clone().collection("users", disk);
        match collection.add(user.to_json(), disk) {
            Ok(id) => {
                assert(Collection::added(
                    users(self@, old(disk)@),
                    user_json(user@),
                    id@,
                    old(disk)@,
                ) == (disk@, Ok::<(), ErrorView>(())));
                Ok(())
            },
            Err(e) => Err(e),
        }
    }

    /// The first user that the index of `users` has under the given name.
    ///
    /// The search fails as [`Where::new`] does; the reply is nothing where it
    /// finds no document, and else what the first document found reads as.
    pub fn get_user(&self, user: String, disk: &Disk) -> (r: Result<Option<User>, StoreError>)
        requires
            disk.wf(),
        ensures
            user_got(self@, user@, disk@, user_view(r)),
    {
        let found = match self.find_user(user, disk) {
            Ok(found) => found,
            Err(e) => {
                return Err(e);
            },
        };
        if found.len() == 0 {
            return Ok(None);
        }
        let r = read_user(found[0].doc.clone(), disk);
        proof {
            assert(documents_view(found@)[0] == found[0]@);
        }
        r
    }

    /// The documents that the index of `users` has under the given name.
    fn find_user(&self, user: String, disk: &Disk) -> (r: Result<Vec<IdDocument>, StoreError>)
        ensures
            user_found(
                self@,
                user@,
                disk@,
                match r {
                    Ok(found) => Ok(documents_view(found@)),
                    Err(e) => Err(e@),
                },
            ),
    {
        let collection = self.db.clone().collection("users", disk);
        match collection.wherr("username".to_string(), Condition::Equal, Json::String(user), disk) {
            Ok(query) => Ok(query.get()),
            Err(e) => Err(e),
        }
    }

    /// All users: what the documents of `users` read as, in listing order;
    /// a document that cannot be read as a user is passed over.
    pub fn get_users(&self, disk: &Disk) -> (r: Vec<User>)
        requires
            disk.wf(),
        ensures
            users_view(r@) == all_users(self@, disk@),
    {
        let documents = self.db.clone().collection("users", disk).get(disk);
        let ghost all = documents_view(documents@);
        let mut found: Vec<User> = Vec::new();
        let mut i: usize = 0;
        assert(users_view(found@) =~= users_of(all, disk@, 0));
        while i < documents.len()
            invariant
                i <= documents.len(),
                disk.wf(),
                all == documents_view(documents@),
                users_view(found@) =~= users_of(all, disk@, i as int),
            decreases documents.len() - i,
        {
            assert(all[i as int] == documents[i as int]@);
            match read_user(documents[i].doc.clone(), disk) {
                Ok(Some(user)) => {
                    found.push(user);
                },
                _ => {},
            }
            i += 1;
        }
        proof {
            let listing = disk@.listing(users(self@, disk@).path);
            if users(self@, disk@).exist {
                assert(all.len() == listing.len());
            } else {
                assert(all.len() == 0);
            }
        }
        found
    }

    /// Replaces the fields of the first user that the index of `users` has
    /// under the name of `user`; does nothing where it has none.
    pub fn update_user(&self, user: User, disk: &mut Disk) -> (r: Result<(), StoreError>)
        requires
            old(disk).wf(),
        ensures
            final(disk).wf(),
            user_updated(self@, user@, old(disk)@, final(disk)@, unit_view(r)),
    {
        let found = match self.find_user(user.username.clone(), disk) {
            Ok(found) => found,
            Err(e) => {
                return Err(e);
            },
        };
        if found.len() == 0 {
            return Ok(());
        }
        proof {
            assert(documents_view(found@)[0] == found[0]@);
        }
        let mut document = found[0].doc.clone();
        document.update(user.to_json(), disk)
    }

    /// The chat with the given identifier.
    pub fn get_chat(&self, chat: String, disk: &Disk) -> (r: Result<Option<Chat>, StoreError>)
        requires
            disk.wf(),
        ensures
            chat_view(r) == chat_got(self@, chat@, disk@),
            r matches Ok(Some(c)) ==> c.wf(),
    {
        let document = self.db.clone().collection("chats", disk).doc(chat.as_str(), disk);
        match document.get(disk) {
            Ok(Some(value)) => match Chat::from_json(&value) {
                Some(chat) => Ok(Some(chat)),
                None => Err(StoreError::Malformed),
            },
            Ok(None) => Ok(None),
            Err(e) => Err(e),
        }
    }

    /// Adds a chat to the collection `chats` and returns its identifier.
    pub fn insert_chat(&self, chat: Chat, disk: &mut Disk) -> (r: Result<String, StoreError>)
        requires
            old(disk).wf(),
        ensures
            final(disk).wf(),
            chat_inserted(self@, chat@, old(disk)@, final(disk)@, r),
    {
        let collection = self.db.clone().collection("chats", disk);
        let r = collection.add(chat.to_json(), disk);
        proof {
            let c = chats(self@, old(disk)@);
            match &r {
                Ok(id) => {
                    assert(Collection::added(c, chat_json(chat@), id@, old(disk)@) == (
                        disk@,
                        Ok::<(), ErrorView>(()),
                    ));
                },
                Err(e) => {
                    let id = choose|id: Seq<char>| #[trigger]
                        Collection::added(c, chat_json(chat@), id, old(disk)@) == (
                            disk@,
                            Err::<(), ErrorView>(e@),
                        ) && id.len() == 36;
                    assert(Collection::added(c, chat_json(chat@), id, old(disk)@) == (
                        disk@,
                        Err::<(), ErrorView>(e@),
                    ));
                },
            }
        }
        r
    }

    /// Puts a message into the chat with the given identifier, at the place
    /// of its instant; a chat that is not there is left alone.
    pub fn insert_message(&self, chat: String, message: Message, disk: &mut Disk) -> (r: Result<
        (),
        StoreError,
    >)
        requires
            old(disk).wf(),
        ensures
            final(disk).wf(),
            (final(disk)@, unit_view(r)) == message_put(self@, chat@, message@, old(disk)@),
    {
        let mut found = match self.get_chat(chat.clone(), disk) {
            Ok(Some(found)) => found,
            Ok(None) => {
                return Ok(());
            },
            Err(e) => {
                return Err(e);
            },
        };
        found.insert(message);
        let mut document = self.db.clone().collection("chats", disk).doc(chat.as_str(), disk);
        document.update(found.to_json(), disk)
    }

    /// Does what a request asks, and gives the reply to it.
    pub fn handle(&self, request: Request, disk: &mut Disk) -> (reply: Reply)
        requires
            old(disk).wf(),
        ensures
            final(disk).wf(),
            match request {
                Request::InsertUser(user) => reply matches Reply::Done(r) && inserted(
                    users(self@, old(disk)@),
                    user_json(user@),
                    old(disk)@,
                    final(disk)@,
                    unit_view(r),
                ),
                Request::GetUser(name) => reply matches Reply::User(r) && user_got(
                    self@,
                    name@,
                    old(disk)@,
                    user_view(r),
                ) && final(disk)@ == old(disk)@,
                Request::GetUsers => reply matches Reply::Users(found) && users_view(found@)
                    == all_users(self@, old(disk)@) && final(disk)@ == old(disk)@,
                Request::UpdateUser(user) => reply matches Reply::Done(r) && user_updated(
                    self@,
                    user@,
                    old(disk)@,
                    final(disk)@,
                    unit_view(r),
                ),
                Request::GetChat(id) => reply matches Reply::Chat(r) && chat_view(r) == chat_got(
                    self@,
                    id@,
                    old(disk)@,
                ) && final(disk)@ == old(disk)@,
                Request::InsertChat(chat) => reply matches Reply::Id(r) && chat_inserted(
                    self@,
                    chat@,
                    old(disk)@,
                    final(disk)@,
                    r,
                ),
                Request::InsertMessage(id, message) => reply matches Reply::Done(r) && (
                    final(disk)@,
                    unit_view(r),
                ) == message_put(self@, id@, message@, old(disk)@),
            },
    {
        match request {
            Request::InsertUser(user) => Reply::Done(self.insert_user(user, disk)),
            Request::GetUser(user) => Reply::User(self.get_user(user, disk)),
            Request::GetUsers => Reply::Users(self.get_users(disk)),
            Request::UpdateUser(user) => Reply::Done(self.update_user(user, disk)),
            Request::GetChat(chat) => Reply::Chat(self.get_chat(chat, disk)),
            Request::InsertChat(chat) => Reply::Id(self.insert_chat(chat, disk)),
            Request::InsertMessage(chat, message) => Reply::Done(
                self.insert_message(chat, message, disk),
            ),
        }
    }
}

/// Reads a document as a user.
pub fn read_user(document: Document, disk: &Disk) -> (r: Result<Option<User>, StoreError>)
    requires
        disk.wf(),
    ensures
        user_view(r) == user_read(Document::read(document@, disk@)),
{
    match document.get(disk) {
        Ok(Some(value)) => match User::from_json(&value) {
            Some(user) => Ok(Some(user)),
            None => Err(StoreError::Malformed),
        },
        Ok(None) => Ok(None),
        Err(e) => Err(e),
    }
}

} // verus!
