//! Collections: directories of documents.

use vstd::prelude::*;
use crate::db::{Db, DbView};
use crate::disk::{names_view, pairs_view, Disk, DiskView};
use crate::document::{Document, IdDocument, IdDocumentView};
use crate::error::{unit_view, ErrorView, StoreError};
use crate::index::{index_key, keys_of, reindex_keys, ListingView};
use crate::json::{json_parse, json_text, parse, to_text};
use crate::query::{documents_view, Condition, Where};
use crate::text::{below_base, join, joined, strip_base};
use crate::value::{
    copy_members, lemma_object_view, lookup, members_view, put, put_member, Json, JsonView,
    MembersView,
};

verus! {

/// The mathematical value of a [`Collection`].
pub struct CollectionView {
    /// The path of the collection's directory.
    pub path: Seq<char>,
    /// The collection's name.
    pub name: Seq<char>,
    /// The store that the collection belongs to.
    pub db: DbView,
    /// Whether the directory existed when the handle was made.
    pub exist: bool,
}

/// A handle on a collection of documents.
pub struct Collection {
    path: String,
    pub name: String,
    db: Db,
    pub exist: bool,
}

impl View for Collection {
    type V = CollectionView;

    closed spec fn view(&self) -> CollectionView {
        CollectionView { path: self.path@, name: self.name@, db: self.db@, exist: self.exist }
    }
}

impl Clone for Collection {
    fn clone(&self) -> (collection: Collection)
        ensures
            collection@ == self@,
    {
        self.copy()
    }
}

/// The collections of an index: what its text holds, where that is a JSON object.
pub open spec fn index_members(text: Seq<char>) -> Option<MembersView> {
    match json_parse(text) {
        Some(JsonView::Object(members)) => Some(members),
        _ => None,
    }
}

/// The fields that an index has for the collection at the relative path
/// `rel`; none where it does not have the collection as an object.
pub open spec fn collection_fields(index: MembersView, rel: Seq<char>) -> MembersView {
    match lookup(index, rel) {
        Some(JsonView::Object(fields)) => fields,
        _ => Seq::empty(),
    }
}

/// The index after the fields `keys` of the collection at `rel` were indexed
/// anew from the documents of the listing `docs`.
pub open spec fn reindexed(
    index: MembersView,
    rel: Seq<char>,
    docs: ListingView,
    keys: Seq<Seq<char>>,
) -> MembersView {
    put_member(
        index,
        rel,
        JsonView::Object(reindex_keys(collection_fields(index, rel), docs, keys)),
    )
}

/// The handles that a collection gives for the documents named `ids`.
pub open spec fn id_handles(collection: CollectionView, ids: Seq<Seq<char>>, disk: DiskView) -> Seq<IdDocumentView> {
    Seq::new(
        ids.len(),
        |i: int| IdDocumentView { id: ids[i], doc: Document::opened(ids[i], collection, disk) },
    )
}

/// The names of the documents of a listing.
pub open spec fn names_of(docs: ListingView) -> Seq<Seq<char>> {
    Seq::new(docs.len(), |i: int| docs[i].0)
}

/// The handles that a collection gives for the documents of a listing.
pub open spec fn handles(collection: CollectionView, docs: ListingView, disk: DiskView) -> Seq<IdDocumentView> {
    id_handles(collection, names_of(docs), disk)
}

/// `uuid::Uuid::new_v4`, printed with `to_string`. The identifier is random:
/// the contract states only its length, the 36 characters of the hyphenated
/// form.
#[verifier::external_body]
fn fresh_id() -> (id: String)
    ensures
        id@.len() == 36,
{
    uuid::Uuid::new_v4().to_string()
}

impl Collection {
    /// The text of the index after the collection was indexed anew for the
    /// top-level keys of `data`, or the error that stops it: `Unlocked`
    /// without the lock, `Io` for a collection outside the base directory or
    /// a missing index file, `Malformed` where the index or `data` is no JSON
    /// object or the new index cannot be printed.
    pub open spec fn index_outcome(collection: CollectionView, data: JsonView, disk: DiskView) -> Result<Seq<char>, ErrorView> {
        if !collection.db.lock {
            Err(ErrorView::Unlocked)
        } else {
            match (below_base(collection.path, collection.db.base), disk.index) {
                (Some(rel), Some(text)) => match (index_members(text), data) {
                    (Some(index), JsonView::Object(members)) => match json_text(
                        JsonView::Object(
                            reindexed(index, rel, disk.listing(collection.path), keys_of(members)),
                        ),
                    ) {
                        Some(printed) => Ok(printed),
                        None => Err(ErrorView::Malformed),
                    },
                    _ => Err(ErrorView::Malformed),
                },
                _ => Err(ErrorView::Io),
            }
        }
    }

    /// The image after [`Collection::index`], and what the call returns: the
    /// index file holds the new text, or nothing has changed.
    pub open spec fn indexed(collection: CollectionView, data: JsonView, disk: DiskView) -> (DiskView, Result<(), ErrorView>) {
        match Self::index_outcome(collection, data, disk) {
            Ok(printed) => (DiskView { index: Some(printed), ..disk }, Ok(())),
            Err(e) => (disk, Err(e)),
        }
    }

    /// The image after [`Collection::mkdir`], and what the call returns.
    pub open spec fn made(collection: CollectionView, disk: DiskView) -> (DiskView, Result<(), ErrorView>) {
        if collection.exist {
            (disk, Ok(()))
        } else if !collection.db.lock {
            (disk, Err(ErrorView::Unlocked))
        } else {
            (disk.with_dir(collection.path), Ok(()))
        }
    }

    /// Creates the collection's directory, unless the handle saw it exist.
    /// Without the lock that fails with `Unlocked`.
    pub fn mkdir(&self, disk: &mut Disk) -> (r: Result<(), StoreError>)
        ensures
            old(disk).wf() ==> final(disk).wf(),
            final(disk)@ == Self::made(self@, old(disk)@).0,
            unit_view(r) == Self::made(self@, old(disk)@).1,
    {
        if !self.exist {
            if !self.db.is_locked() {
                return Err(StoreError::Unlocked);
            }
            disk.make_dir(&self.path);
        }
        Ok(())
    }

    /// The documents of the collection, in listing order; none where the
    /// handle saw no directory.
    pub fn get(&self, disk: &Disk) -> (found: Vec<IdDocument>)
        ensures
            documents_view(found@) == if self@.exist {
                handles(self@, disk@.listing(self@.path), disk@)
            } else {
                Seq::empty()
            },
    {
        let mut found: Vec<IdDocument> = Vec::new();
        if !self.exist {
            assert(documents_view(found@) =~= Seq::empty());
            return found;
        }
        let docs = disk.list(&self.path);
        let mut names: Vec<String> = Vec::new();
        let mut i: usize = 0;
        while i < docs.len()
            invariant
                i <= docs.len(),
                names.len() == i,
                forall|j: int| 0 <= j < i ==> names[j]@ == docs[j].0@,
            decreases docs.len() - i,
        {
            names.push(docs[i].0.clone());
            i += 1;
        }
        assert(names_view(names@) =~= names_of(pairs_view(docs@)));
        self.documents(&names, disk)
    }

    /// The handles on the documents named `ids`.
    pub fn documents(&self, ids: &Vec<String>, disk: &Disk) -> (found: Vec<IdDocument>)
        ensures
            documents_view(found@) == id_handles(self@, names_view(ids@), disk@),
    {
        let mut found: Vec<IdDocument> = Vec::new();
        let mut i: usize = 0;
        while i < ids.len()
            invariant
                i <= ids.len(),
                found.len() == i,
                forall|j: int|
                    0 <= j < i ==> (#[trigger] found[j])@ == id_handles(
                        self@,
                        names_view(ids@),
                        disk@,
                    )[j],
            decreases ids.len() - i,
        {
            let doc = Document::new(ids[i].as_str(), self.copy(), disk);
            found.push(IdDocument::new(ids[i].clone(), doc));
            i += 1;
        }
        assert(documents_view(found@) =~= id_handles(self@, names_view(ids@), disk@));
        found
    }

    /// The image after [`Collection::add`] with the identifier `id`, and
    /// what the call returns: the directory is made, and the document `id`
    /// is written and indexed in the image that has it.
    pub open spec fn added(collection: CollectionView, data: JsonView, id: Seq<char>, disk: DiskView) -> (DiskView, Result<(), ErrorView>) {
        let made = Self::made(collection, disk);
        if made.1 is Err {
            made
        } else {
            Document::written(Document::opened(id, collection, made.0), data, true, made.0)
        }
    }

    /// Adds a document with a fresh identifier and returns the identifier.
    ///
    /// The identifier is random, of 36 characters. The image is that of
    /// [`Collection::added`] for it, also where the call fails.
    pub fn add(&self, data: Json, disk: &mut Disk) -> (r: Result<String, StoreError>)
        requires
            old(disk).wf(),
        ensures
            final(disk).wf(),
            match r {
                Ok(id) => {
                    &&& id@.len() == 36
                    &&& Self::added(self@, data@, id@, old(disk)@) == (final(disk)@, Ok::<(), ErrorView>(()))
                },
                Err(e) => exists|id: Seq<char>| #[trigger]
                    Self::added(self@, data@, id, old(disk)@) == (final(disk)@, Err::<(), ErrorView>(e@))
                        && id.len() == 36,
            },
    {
        match self.mkdir(disk) {
            Ok(()) => {},
            Err(e) => {
                assert(Self::added(self@, data@, Seq::new(36, |i: int| '0'), old(disk)@) == (
                    disk@,
                    Err::<(), ErrorView>(e@),
                ));
                return Err(e);
            },
        }
        let id = fresh_id();
        let mut doc = self.copy().doc(id.as_str(), disk);
        match doc.set(data, disk) {
            Ok(()) => Ok(id),
            Err(e) => {
                assert(Self::added(self@, data@, id@, old(disk)@) == (disk@, Err::<(), ErrorView>(e@)));
                Err(e)
            },
        }
    }

    /// The query for the documents whose field `key` meets `cond` against `value`.
    pub fn wherr(self, key: String, cond: Condition, value: Json, disk: &Disk) -> (r: Result<
        Where,
        StoreError,
    >)
        ensures
            Where::found(self@, key@, cond, value@, disk@, r),
    {
        Where::new(self, key, cond, value, disk)
    }

    /// Indexes the collection anew for every top-level key of `data`.
    ///
    /// For each key the documents of the collection that have a value that
    /// can be ordered under it are sorted by that value, and the list of
    /// their values and names replaces the key's list in the index; a key
    /// that no document has so is taken out. The new index is written to the
    /// index file. On an error nothing is written.
    pub fn index(&self, data: Json, disk: &mut Disk) -> (r: Result<(), StoreError>)
        ensures
            old(disk).wf() ==> final(disk).wf(),
            final(disk)@ == Self::indexed(self@, data@, old(disk)@).0,
            unit_view(r) == Self::indexed(self@, data@, old(disk)@).1,
    {
        if !self.db.is_locked() {
            return Err(StoreError::Unlocked);
        }
        let rel = match strip_base(self.path.as_str(), self.db.base().as_str()) {
            Some(rel) => rel,
            None => {
                return Err(StoreError::Io);
            },
        };
        let text = match disk.index() {
            Some(text) => text,
            None => {
                return Err(StoreError::Io);
            },
        };
        let mut index = match parse(text.as_str()) {
            Ok(Json::Object(index)) => {
                proof {
                    lemma_object_view(index);
                }
                index
            },
            _ => {
                return Err(StoreError::Malformed);
            },
        };
        let members = match data {
            Json::Object(members) => {
                proof {
                    lemma_object_view(members);
                }
                members
            },
            _ => {
                return Err(StoreError::Malformed);
            },
        };
        let mut fields = fields_of(&index, &rel);
        let docs = disk.list(&self.path);
        let ghost start = members_view(fields@);
        let ghost keys = keys_of(members_view(members@));
        let mut i: usize = 0;
        assert(keys.take(0) =~= Seq::empty());
        while i < members.len()
            invariant
                i <= members.len(),
                keys == keys_of(members_view(members@)),
                members_view(fields@) == reindex_keys(start, pairs_view(docs@), keys.take(i as int)),
            decreases members.len() - i,
        {
            assert(keys.take(i + 1).drop_last() =~= keys.take(i as int));
            assert(keys.take(i + 1).last() == members[i as int].0@);
            index_key(&mut fields, &docs, &members[i].0);
            i += 1;
        }
        assert(keys.take(i as int) =~= keys);
        proof {
            lemma_object_view(fields);
        }
        put(&mut index, &rel, Json::Object(fields));
        proof {
            lemma_object_view(index);
        }
        match to_text(&Json::Object(index)) {
            Ok(printed) => {
                disk.set_index(Some(printed));
                Ok(())
            },
            Err(e) => Err(e),
        }
    }

    /// The handle on the collection `name` in the directory `base`, as it is
    /// made on the image `disk`.
    pub open spec fn opened(db: DbView, name: Seq<char>, base: Seq<char>, disk: DiskView) -> CollectionView {
        CollectionView {
            path: joined(base, name),
            name,
            db,
            exist: disk.has_dir(joined(base, name)),
        }
    }

    /// The collection `name` directly below the base directory of `db`.
    pub fn new(db: Db, name: &str, disk: &Disk) -> (collection: Collection)
        ensures
            collection@ == Self::opened(db@, name@, db@.base, disk@),
    {
        let path = join(db.base(), name);
        let exist = disk.is_dir(&path);
        Collection { path, name: name.to_string(), db, exist }
    }

    /// The collection `name` in the directory `base`.
    pub fn new_from(db: Db, name: &str, base: String, disk: &Disk) -> (collection: Collection)
        ensures
            collection@ == Self::opened(db@, name@, base@, disk@),
    {
        let path = join(&base, name);
        let exist = disk.is_dir(&path);
        Collection { path, name: name.to_string(), db, exist }
    }

    /// The document `name` of this collection.
    pub fn doc(self, name: &str, disk: &Disk) -> (document: Document)
        ensures
            document@ == Document::opened(name@, self@, disk@),
    {
        Document::new(name, self, disk)
    }

    /// A second handle on the same collection.
    pub fn copy(&self) -> (collection: Collection)
        ensures
            collection@ == self@,
    {
        Collection {
            path: self.path.clone(),
            name: self.name.clone(),
            db: self.db.clone(),
            exist: self.exist,
        }
    }

    /// Whether the directory existed when the handle was made.
    pub fn seen(&self) -> (exist: bool)
        ensures
            exist == self@.exist,
    {
        self.exist
    }

    /// The path of the collection's directory.
    pub fn path(&self) -> (path: &String)
        ensures
            path@ == self@.path,
    {
        &self.path
    }

    /// The store that the collection belongs to.
    pub fn db(&self) -> (db: &Db)
        ensures
            db@ == self@.db,
    {
        &self.db
    }
}

/// A copy of the fields that an index has for the collection at `rel`.
fn fields_of(index: &Vec<(String, Json)>, rel: &String) -> (fields: Vec<(String, Json)>)
    ensures
        members_view(fields@) == collection_fields(members_view(index@), rel@),
{
    let i = crate::value::find_member(index, rel);
    proof {
        let all = members_view(index@);
        crate::value::lemma_lookup_skip(all, rel@, i as int);
        if i < index.len() {
            assert(all.skip(i as int)[0] == all[i as int]);
        }
    }
    if i < index.len() {
        match &index[i].1 {
            Json::Object(fields) => {
                proof {
                    lemma_object_view(*fields);
                }
                copy_members(fields)
            },
            _ => {
                let fields: Vec<(String, Json)> = Vec::new();
                assert(members_view(fields@) =~= Seq::empty());
                fields
            },
        }
    } else {
        let fields: Vec<(String, Json)> = Vec::new();
        assert(members_view(fields@) =~= Seq::empty());
        fields
    }
}

} // verus!
