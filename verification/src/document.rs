//! Documents: JSON files in a collection.

use vstd::prelude::*;
use crate::collection::{Collection, CollectionView};
use crate::disk::{Disk, DiskView};
use crate::error::{unit_view, ErrorView, StoreError};
use crate::json::{json_parse, json_text, parse, to_text};
use crate::text::{document_file, file_name_of, join, joined};
use crate::value::{
    lemma_object_view, members_view, put, put_member, Json, JsonView, MembersView,
};

verus! {

/// The mathematical value of a [`Document`].
pub struct DocumentView {
    /// The path of the document's file.
    pub path: Seq<char>,
    /// The document's name.
    pub name: Seq<char>,
    /// The collection that the document belongs to.
    pub collection: CollectionView,
    /// Whether the file existed when the handle last looked.
    pub exist: bool,
}

/// A handle on a document.
pub struct Document {
    path: String,
    pub name: String,
    collection: Collection,
    pub exist: bool,
}

impl View for Document {
    type V = DocumentView;

    closed spec fn view(&self) -> DocumentView {
        DocumentView {
            path: self.path@,
            name: self.name@,
            collection: self.collection@,
            exist: self.exist,
        }
    }
}

impl Clone for Document {
    fn clone(&self) -> (document: Document)
        ensures
            document@ == self@,
    {
        Document {
            path: self.path.clone(),
            name: self.name.clone(),
            collection: self.collection.copy(),
            exist: self.exist,
        }
    }
}

/// The mathematical value of an [`IdDocument`].
pub struct IdDocumentView {
    pub id: Seq<char>,
    pub doc: DocumentView,
}

/// A document with its identifier.
pub struct IdDocument {
    pub id: String,
    pub doc: Document,
}

impl View for IdDocument {
    type V = IdDocumentView;

    open spec fn view(&self) -> IdDocumentView {
        IdDocumentView { id: self.id@, doc: self.doc@ }
    }
}

impl Clone for IdDocument {
    fn clone(&self) -> (document: IdDocument)
        ensures
            document@ == self@,
    {
        IdDocument { id: self.id.clone(), doc: self.doc.clone() }
    }
}

impl IdDocument {
    /// Pairs a document with its identifier.
    pub fn new(id: String, doc: Document) -> (document: IdDocument)
        ensures
            document@ == (IdDocumentView { id: id@, doc: doc@ }),
    {
        IdDocument { id, doc }
    }
}

/// The members of `content` with every member of `partial` put in turn: a
/// key of `partial` gets its value from there, every other key keeps its own.
pub open spec fn merged(content: MembersView, partial: MembersView) -> MembersView
    decreases partial.len(),
{
    if partial.len() == 0 {
        content
    } else {
        put_member(merged(content, partial.drop_last()), partial.last().0, partial.last().1)
    }
}

/// The members of `content` with every member of `partial` put in turn.
pub fn merge(content: &mut Vec<(String, Json)>, partial: &Vec<(String, Json)>)
    ensures
        members_view(final(content)@) == merged(
            members_view(old(content)@),
            members_view(partial@),
        ),
{
    let ghost all = members_view(partial@);
    let ghost start = members_view(content@);
    let mut i: usize = 0;
    assert(all.take(0) =~= Seq::empty());
    while i < partial.len()
        invariant
            i <= partial.len(),
            all == members_view(partial@),
            members_view(content@) == merged(start, all.take(i as int)),
        decreases partial.len() - i,
    {
        assert(all.take(i + 1).drop_last() =~= all.take(i as int));
        assert(all.take(i + 1).last() == all[i as int]);
        put(content, &partial[i].0, partial[i].1.copy());
        i += 1;
    }
    assert(all.take(i as int) =~= all);
}

/// The mathematical value of what [`Document::get`] returns.
pub open spec fn read_view(r: Result<Option<Json>, StoreError>) -> Result<Option<JsonView>, ErrorView> {
    match r {
        Ok(Some(value)) => Ok(Some(value@)),
        Ok(None) => Ok(None),
        Err(e) => Err(e@),
    }
}

impl Document {
    /// What [`Document::get`] returns: nothing for a handle that saw no file,
    /// `Io` where the file is gone, `Malformed` where it holds no JSON, and
    /// else the value that the file holds.
    pub open spec fn read(document: DocumentView, disk: DiskView) -> Result<Option<JsonView>, ErrorView> {
        if !document.exist {
            Ok(None)
        } else {
            match disk.text_of(document.collection.path, document.name) {
                None => Err(ErrorView::Io),
                Some(text) => match json_parse(text) {
                    None => Err(ErrorView::Malformed),
                    Some(value) => Ok(Some(value)),
                },
            }
        }
    }

    /// The image after [`Document::set_with_index`], and what the call
    /// returns. Without the lock nothing happens. Else the collection's
    /// directory is made, the printed `data` is written to the document's
    /// file, and, with `index`, the collection is indexed anew for the keys
    /// of `data`; an error leaves what was done before it.
    pub open spec fn written(document: DocumentView, data: JsonView, index: bool, disk: DiskView) -> (DiskView, Result<(), ErrorView>) {
        if !document.collection.db.lock {
            (disk, Err(ErrorView::Unlocked))
        } else {
            let made = Collection::made(document.collection, disk).0;
            match json_text(data) {
                None => (made, Err(ErrorView::Malformed)),
                Some(text) => {
                    let stored = made.with_doc(document.collection.path, document.name, text);
                    if index {
                        Collection::indexed(document.collection, data, stored)
                    } else {
                        (stored, Ok(()))
                    }
                },
            }
        }
    }

    /// The image after [`Document::update`], and what the call returns. A
    /// handle that saw no file does nothing. Else the file is read as a JSON
    /// object, the members of `partial` are put into it, the result is
    /// written back, and the collection is indexed anew for the keys of
    /// `partial`.
    pub open spec fn updated(document: DocumentView, partial: JsonView, disk: DiskView) -> (DiskView, Result<(), ErrorView>) {
        if !document.exist {
            (disk, Ok(()))
        } else {
            match Self::read(document, disk) {
                Err(e) => (disk, Err(e)),
                Ok(Some(JsonView::Object(content))) => match partial {
                    JsonView::Object(members) => {
                        let stored = Self::written(
                            document,
                            JsonView::Object(merged(content, members)),
                            false,
                            disk,
                        );
                        if stored.1 is Ok {
                            Collection::indexed(document.collection, partial, stored.0)
                        } else {
                            stored
                        }
                    },
                    _ => (disk, Err(ErrorView::Malformed)),
                },
                Ok(_) => (disk, Err(ErrorView::Malformed)),
            }
        }
    }

    /// Whether [`Document::delete`] removes the document's file: it holds the
    /// lock, the file is there, and where the handle saw it, it reads as a
    /// JSON object.
    pub open spec fn removes(document: DocumentView, disk: DiskView) -> bool {
        &&& document.collection.db.lock
        &&& disk.has_doc(document.collection.path, document.name)
        &&& document.exist ==> Self::read(document, disk) matches Ok(Some(JsonView::Object(_)))
    }

    /// The image after [`Document::delete`], and what the call returns.
    /// Without the lock nothing happens. Else the file is read, where the
    /// handle saw one, as a JSON object; the file is removed, which fails
    /// with `Io` where there is none; and the collection is indexed anew for
    /// the keys that the document had.
    pub open spec fn deleted(document: DocumentView, disk: DiskView) -> (DiskView, Result<(), ErrorView>) {
        if !document.collection.db.lock {
            (disk, Err(ErrorView::Unlocked))
        } else {
            match Self::read(document, disk) {
                Err(e) => (disk, Err(e)),
                Ok(Some(JsonView::Object(content))) => Collection::indexed(
                    document.collection,
                    JsonView::Object(content),
                    disk.without_doc(document.collection.path, document.name),
                ),
                Ok(Some(_)) => (disk, Err(ErrorView::Malformed)),
                Ok(None) => if disk.has_doc(document.collection.path, document.name) {
                    (disk.without_doc(document.collection.path, document.name), Ok(()))
                } else {
                    (disk, Err(ErrorView::Io))
                },
            }
        }
    }

    /// Writes `data` to the document and indexes the collection anew for its
    /// keys; the handle then knows the file to exist.
    pub fn set(&mut self, data: Json, disk: &mut Disk) -> (r: Result<(), StoreError>)
        requires
            old(disk).wf(),
        ensures
            final(disk).wf(),
            final(disk)@ == Self::written(old(self)@, data@, true, old(disk)@).0,
            unit_view(r) == Self::written(old(self)@, data@, true, old(disk)@).1,
            final(self)@ == (DocumentView { exist: old(self)@.exist || r is Ok, ..old(self)@ }),
    {
        match self.set_with_index(data, true, disk) {
            Ok(()) => {
                self.exist = true;
                Ok(())
            },
            Err(e) => Err(e),
        }
    }

    /// Writes `data` to the document's file and, with `index`, indexes the
    /// collection anew for the keys of `data`.
    pub fn set_with_index(&self, data: Json, index: bool, disk: &mut Disk) -> (r: Result<
        (),
        StoreError,
    >)
        requires
            old(disk).wf(),
        ensures
            final(disk).wf(),
            final(disk)@ == Self::written(self@, data@, index, old(disk)@).0,
            unit_view(r) == Self::written(self@, data@, index, old(disk)@).1,
    {
        if !self.collection.db().is_locked() {
            return Err(StoreError::Unlocked);
        }
        match self.collection.mkdir(disk) {
            Ok(()) => {},
            Err(e) => {
                return Err(e);
            },
        }
        let text = match to_text(&data) {
            Ok(text) => text,
            Err(e) => {
                return Err(e);
            },
        };
        disk.write(self.collection.path(), &self.name, text);
        if index {
            self.collection.index(data, disk)
        } else {
            Ok(())
        }
    }

    /// Reads the document.
    pub fn get(self, disk: &Disk) -> (r: Result<Option<Json>, StoreError>)
        requires
            disk.wf(),
        ensures
            read_view(r) == Self::read(self@, disk@),
    {
        if self.exist {
            let text = match disk.read(self.collection.path(), &self.name) {
                Some(text) => text,
                None => {
                    return Err(StoreError::Io);
                },
            };
            match parse(text.as_str()) {
                Ok(value) => Ok(Some(value)),
                Err(e) => Err(e),
            }
        } else {
            Ok(None)
        }
    }

    /// Puts the top-level members of `partial` into the document and indexes
    /// the collection anew for their keys. A handle that saw no file does
    /// nothing.
    pub fn update(&mut self, partial: Json, disk: &mut Disk) -> (r: Result<(), StoreError>)
        requires
            old(disk).wf(),
        ensures
            final(disk).wf(),
            final(self)@ == old(self)@,
            final(disk)@ == Self::updated(old(self)@, partial@, old(disk)@).0,
            unit_view(r) == Self::updated(old(self)@, partial@, old(disk)@).1,
    {
        if self.exist {
            let mut content = match self.clone().get(disk) {
                Ok(Some(Json::Object(content))) => {
                    proof {
                        lemma_object_view(content);
                    }
                    content
                },
                Ok(_) => {
                    return Err(StoreError::Malformed);
                },
                Err(e) => {
                    return Err(e);
                },
            };
            match &partial {
                Json::Object(members) => {
                    proof {
                        lemma_object_view(*members);
                    }
                    merge(&mut content, members);
                },
                _ => {
                    return Err(StoreError::Malformed);
                },
            }
            proof {
                lemma_object_view(content);
            }
            match self.set_with_index(Json::Object(content), false, disk) {
                Ok(()) => {},
                Err(e) => {
                    return Err(e);
                },
            }
            self.collection.index(partial, disk)
        } else {
            Ok(())
        }
    }

    /// Removes the document's file and indexes the collection anew for the
    /// keys that the document had; the handle then knows the file to be gone.
    pub fn delete(&mut self, disk: &mut Disk) -> (r: Result<(), StoreError>)
        requires
            old(disk).wf(),
        ensures
            final(disk).wf(),
            final(disk)@ == Self::deleted(old(self)@, old(disk)@).0,
            unit_view(r) == Self::deleted(old(self)@, old(disk)@).1,
            final(self)@ == (DocumentView {
                exist: old(self)@.exist && !Self::removes(old(self)@, old(disk)@),
                ..old(self)@
            }),
    {
        if !self.collection.db().is_locked() {
            return Err(StoreError::Unlocked);
        }
        let data = match self.clone().get(disk) {
            Ok(Some(Json::Object(content))) => {
                proof {
                    lemma_object_view(content);
                }
                Some(Json::Object(content))
            },
            Ok(Some(_)) => {
                return Err(StoreError::Malformed);
            },
            Ok(None) => None,
            Err(e) => {
                return Err(e);
            },
        };
        if !disk.remove(self.collection.path(), &self.name) {
            return Err(StoreError::Io);
        }
        self.exist = false;
        match data {
            Some(data) => self.collection.index(data, disk),
            None => Ok(()),
        }
    }

    /// The handle on the document `name` of `collection`, as it is made on
    /// the image `disk`.
    pub open spec fn opened(name: Seq<char>, collection: CollectionView, disk: DiskView) -> DocumentView {
        DocumentView {
            path: joined(collection.path, file_name_of(name)),
            name,
            collection,
            exist: disk.has_doc(collection.path, name),
        }
    }

    /// The document `name` of `collection`.
    pub fn new(name: &str, collection: Collection, disk: &Disk) -> (document: Document)
        ensures
            document@ == Self::opened(name@, collection@, disk@),
    {
        let file = document_file(name);
        let path = join(collection.path(), file.as_str());
        let name = name.to_string();
        let exist = disk.is_file(collection.path(), &name);
        Document { path, name, collection, exist }
    }

    /// The collection `name` that belongs to this document: its directory
    /// lies in the directory that has the document's path without `.json`.
    pub fn collection(self, name: &str, disk: &Disk) -> (collection: Collection)
        ensures
            collection@ == Collection::opened(
                self@.collection.db,
                name@,
                joined(self@.collection.path, self@.name),
                disk@,
            ),
    {
        let base = join(self.collection.path(), self.name.as_str());
        Collection::new_from(self.collection.db().clone(), name, base, disk)
    }

    /// Whether the file existed when the handle last looked.
    pub fn seen(&self) -> (exist: bool)
        ensures
            exist == self@.exist,
    {
        self.exist
    }

    /// The path of the document's file.
    pub fn path(&self) -> (path: &String)
        ensures
            path@ == self@.path,
    {
        &self.path
    }

    /// The collection that the document belongs to.
    pub fn parent(&self) -> (collection: &Collection)
        ensures
            collection@ == self@.collection,
    {
        &self.collection
    }
}

} // verus!
