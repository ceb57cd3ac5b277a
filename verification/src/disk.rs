//! An image of the store's directory tree.
//!
//! The store does not touch the file system. It works on a [`Disk`]: what the
//! base directory holds, as far as the store reads or writes it. A caller
//! fills the image from the real tree and writes it back.

use vstd::prelude::*;

verus! {

/// One document file: the directory of its collection, the document's name
/// and the text of the file.
pub type DocView = (Seq<char>, Seq<char>, Seq<char>);

/// The mathematical value of a [`Disk`].
pub struct DiskView {
    /// Whether the base directory exists.
    pub root: bool,
    /// What the file `version` holds, if it exists.
    pub version: Option<Seq<char>>,
    /// What the file `lock` holds, if it exists.
    pub lock: Option<Seq<char>>,
    /// What the file `index.json` holds, if it exists.
    pub index: Option<Seq<char>>,
    /// The collection directories that exist.
    pub dirs: Seq<Seq<char>>,
    /// The document files, in the order in which a directory is listed.
    pub docs: Seq<DocView>,
}

/// The documents of `dir` among `docs`, as pairs of name and text, in order.
pub open spec fn list_docs(docs: Seq<DocView>, dir: Seq<char>) -> Seq<(Seq<char>, Seq<char>)>
    decreases docs.len(),
{
    if docs.len() == 0 {
        Seq::empty()
    } else {
        let rest = list_docs(docs.drop_last(), dir);
        if docs.last().0 == dir {
            rest.push((docs.last().1, docs.last().2))
        } else {
            rest
        }
    }
}

/// Whether `k` is the place of the document `name` of `dir` among `docs`.
pub open spec fn doc_at(docs: Seq<DocView>, dir: Seq<char>, name: Seq<char>, k: int) -> bool {
    0 <= k < docs.len() && docs[k].0 == dir && docs[k].1 == name
}

/// The place of the document `name` of `dir` among `docs`.
pub open spec fn doc_place(docs: Seq<DocView>, dir: Seq<char>, name: Seq<char>) -> int {
    choose|k: int| doc_at(docs, dir, name, k)
}

impl DiskView {
    /// No two document files have the same directory and name.
    pub open spec fn unique(self) -> bool {
        forall|i: int, j: int|
            0 <= i < j < self.docs.len() ==> !(#[trigger] self.docs[i].0 == self.docs[j].0
                && self.docs[i].1 == #[trigger] self.docs[j].1)
    }

    /// Whether the directory `dir` exists.
    pub open spec fn has_dir(self, dir: Seq<char>) -> bool {
        self.dirs.contains(dir)
    }

    /// Whether `k` is the place of the document `name` of `dir`.
    pub open spec fn is_at(self, dir: Seq<char>, name: Seq<char>, k: int) -> bool {
        doc_at(self.docs, dir, name, k)
    }

    /// Whether the document `name` of `dir` has a file.
    pub open spec fn has_doc(self, dir: Seq<char>, name: Seq<char>) -> bool {
        exists|k: int| doc_at(self.docs, dir, name, k)
    }

    /// The place of the document `name` of `dir`.
    pub open spec fn place(self, dir: Seq<char>, name: Seq<char>) -> int {
        doc_place(self.docs, dir, name)
    }

    /// The text of the document `name` of `dir`, if it has a file.
    pub open spec fn text_of(self, dir: Seq<char>, name: Seq<char>) -> Option<Seq<char>> {
        if self.has_doc(dir, name) {
            Some(self.docs[self.place(dir, name)].2)
        } else {
            None
        }
    }

    /// The documents of `dir`, as pairs of name and text, in listing order.
    pub open spec fn listing(self, dir: Seq<char>) -> Seq<(Seq<char>, Seq<char>)> {
        list_docs(self.docs, dir)
    }

    /// The image with the directory `dir` created, if it was not there.
    pub open spec fn with_dir(self, dir: Seq<char>) -> DiskView {
        if self.has_dir(dir) {
            self
        } else {
            DiskView { dirs: self.dirs.push(dir), ..self }
        }
    }

    /// The image with `text` written to the document `name` of `dir`: in the
    /// place of its file if it has one, else as a new last file.
    pub open spec fn with_doc(self, dir: Seq<char>, name: Seq<char>, text: Seq<char>) -> DiskView {
        if self.has_doc(dir, name) {
            DiskView { docs: self.docs.update(self.place(dir, name), (dir, name, text)), ..self }
        } else {
            DiskView { docs: self.docs.push((dir, name, text)), ..self }
        }
    }

    /// The image with the file of the document `name` of `dir` removed.
    pub open spec fn without_doc(self, dir: Seq<char>, name: Seq<char>) -> DiskView {
        if self.has_doc(dir, name) {
            DiskView { docs: self.docs.remove(self.place(dir, name)), ..self }
        } else {
            self
        }
    }
}

/// In an image without duplicates, a document found at `k` has its place there.
pub proof fn lemma_place(disk: DiskView, dir: Seq<char>, name: Seq<char>, k: int)
    requires
        disk.unique(),
        disk.is_at(dir, name, k),
    ensures
        disk.has_doc(dir, name),
        disk.place(dir, name) == k,
{
    let p = disk.place(dir, name);
    assert(disk.is_at(dir, name, p));
    if p < k {
        assert(disk.docs[p].0 == disk.docs[k].0 && disk.docs[p].1 == disk.docs[k].1);
    } else if k < p {
        assert(disk.docs[k].0 == disk.docs[p].0 && disk.docs[k].1 == disk.docs[p].1);
    }
}

/// Writing a document keeps the image free of duplicates; the document then
/// has the text written, and every other document has what it had.
pub proof fn lemma_with_doc(disk: DiskView, dir: Seq<char>, name: Seq<char>, text: Seq<char>)
    requires
        disk.unique(),
    ensures
        disk.with_doc(dir, name, text).unique(),
        disk.with_doc(dir, name, text).text_of(dir, name) == Some(text),
        forall|d: Seq<char>, n: Seq<char>|
            !(d == dir && n == name) ==> #[trigger] disk.with_doc(dir, name, text).text_of(d, n)
                == disk.text_of(d, n),
{
    let after = disk.with_doc(dir, name, text);
    let k = if disk.has_doc(dir, name) {
        disk.place(dir, name)
    } else {
        disk.docs.len() as int
    };
    if disk.has_doc(dir, name) {
        assert(disk.is_at(dir, name, k));
    }
    assert(after.is_at(dir, name, k));
    assert forall|i: int, j: int| 0 <= i < j < after.docs.len() implies !(after.docs[i].0
        == after.docs[j].0 && after.docs[i].1 == after.docs[j].1) by {
        if disk.has_doc(dir, name) {
            assert(disk.docs[i].0 == disk.docs[j].0 ==> disk.docs[i].1 != disk.docs[j].1);
        } else {
            if j == disk.docs.len() {
                assert(!disk.is_at(dir, name, i));
            } else {
                assert(disk.docs[i].0 == disk.docs[j].0 ==> disk.docs[i].1 != disk.docs[j].1);
            }
        }
    }
    lemma_place(after, dir, name, k);
    assert forall|d: Seq<char>, n: Seq<char>| !(d == dir && n == name) implies #[trigger] after.text_of(
        d,
        n,
    ) == disk.text_of(d, n) by {
        if disk.has_doc(d, n) {
            let p = disk.place(d, n);
            assert(disk.is_at(d, n, p));
            assert(after.is_at(d, n, p));
            lemma_place(after, d, n, p);
        } else {
            if after.has_doc(d, n) {
                let p = after.place(d, n);
                assert(after.is_at(d, n, p));
                assert(disk.is_at(d, n, p));
            }
        }
    }
}

/// Removing a document keeps the image free of duplicates; the document then
/// has no file, and every other document has what it had.
pub proof fn lemma_without_doc(disk: DiskView, dir: Seq<char>, name: Seq<char>)
    requires
        disk.unique(),
    ensures
        disk.without_doc(dir, name).unique(),
        disk.without_doc(dir, name).text_of(dir, name) is None,
        forall|d: Seq<char>, n: Seq<char>|
            !(d == dir && n == name) ==> #[trigger] disk.without_doc(dir, name).text_of(d, n)
                == disk.text_of(d, n),
{
    let after = disk.without_doc(dir, name);
    if disk.has_doc(dir, name) {
        let k = disk.place(dir, name);
        assert(disk.is_at(dir, name, k));
        let back = |i: int|
            if i < k {
                i
            } else {
                i + 1
            };
        assert forall|i: int| 0 <= i < after.docs.len() implies after.docs[i] == disk.docs[back(i)] by {}
        assert forall|i: int, j: int| 0 <= i < j < after.docs.len() implies !(after.docs[i].0
            == after.docs[j].0 && after.docs[i].1 == after.docs[j].1) by {
            assert(after.docs[i] == disk.docs[back(i)]);
            assert(after.docs[j] == disk.docs[back(j)]);
            assert(disk.docs[back(i)].0 == disk.docs[back(j)].0 ==> disk.docs[back(i)].1
                != disk.docs[back(j)].1);
        }
        if after.has_doc(dir, name) {
            let p = after.place(dir, name);
            assert(after.is_at(dir, name, p));
            assert(after.docs[p] == disk.docs[back(p)]);
            assert(disk.is_at(dir, name, back(p)));
            lemma_place(disk, dir, name, back(p));
        }
        assert forall|d: Seq<char>, n: Seq<char>| !(d == dir && n == name) implies #[trigger] after.text_of(
            d,
            n,
        ) == disk.text_of(d, n) by {
            if disk.has_doc(d, n) {
                let p = disk.place(d, n);
                assert(disk.is_at(d, n, p));
                let q = if p < k {
                    p
                } else {
                    p - 1
                };
                assert(after.docs[q] == disk.docs[back(q)]);
                assert(after.is_at(d, n, q));
                lemma_place(after, d, n, q);
            } else {
                if after.has_doc(d, n) {
                    let p = after.place(d, n);
                    assert(after.is_at(d, n, p));
                    assert(after.docs[p] == disk.docs[back(p)]);
                    assert(disk.is_at(d, n, back(p)));
                }
            }
        }
    }
}

/// The views of a list of names.
pub open spec fn names_view(names: Seq<String>) -> Seq<Seq<char>> {
    Seq::new(names.len(), |i: int| names[i]@)
}

/// The views of a list of document files.
pub open spec fn docs_view(docs: Seq<(String, String, String)>) -> Seq<DocView> {
    Seq::new(docs.len(), |i: int| (docs[i].0@, docs[i].1@, docs[i].2@))
}

/// The views of a list of pairs of strings.
pub open spec fn pairs_view(pairs: Seq<(String, String)>) -> Seq<(Seq<char>, Seq<char>)> {
    Seq::new(pairs.len(), |i: int| (pairs[i].0@, pairs[i].1@))
}

/// The view of an optional string.
pub open spec fn text_view(text: Option<String>) -> Option<Seq<char>> {
    match text {
        Some(t) => Some(t@),
        None => None,
    }
}

/// A copy of an optional string.
pub fn copy_text(text: &Option<String>) -> (copy: Option<String>)
    ensures
        text_view(copy) == text_view(*text),
{
    match text {
        Some(t) => Some(t.clone()),
        None => None,
    }
}

/// An image of the directory tree below the base directory of a store.
pub struct Disk {
    root: bool,
    version: Option<String>,
    lock: Option<String>,
    index: Option<String>,
    dirs: Vec<String>,
    docs: Vec<(String, String, String)>,
}

impl View for Disk {
    type V = DiskView;

    closed spec fn view(&self) -> DiskView {
        DiskView {
            root: self.root,
            version: text_view(self.version),
            lock: text_view(self.lock),
            index: text_view(self.index),
            dirs: names_view(self.dirs@),
            docs: docs_view(self.docs@),
        }
    }
}

impl Clone for Disk {
    fn clone(&self) -> (disk: Disk)
        ensures
            disk@ == self@,
    {
        Disk {
            root: self.root,
            version: copy_text(&self.version),
            lock: copy_text(&self.lock),
            index: copy_text(&self.index),
            dirs: self.dirs(),
            docs: self.docs(),
        }
    }
}

impl Disk {
    /// The image is well formed: no two document files have the same
    /// directory and name.
    pub open spec fn wf(&self) -> bool {
        self@.unique()
    }

    /// The image of a place where nothing exists yet.
    pub fn new() -> (disk: Disk)
        ensures
            disk.wf(),
            disk@ == (DiskView {
                root: false,
                version: None,
                lock: None,
                index: None,
                dirs: Seq::empty(),
                docs: Seq::empty(),
            }),
    {
        let disk = Disk {
            root: false,
            version: None,
            lock: None,
            index: None,
            dirs: Vec::new(),
            docs: Vec::new(),
        };
        assert(disk@.dirs =~= Seq::empty());
        assert(disk@.docs =~= Seq::empty());
        disk
    }

    /// Whether the base directory exists.
    pub fn root(&self) -> (root: bool)
        ensures
            root == self@.root,
    {
        self.root
    }

    /// What the file `version` holds.
    pub fn version(&self) -> (text: Option<String>)
        ensures
            text_view(text) == self@.version,
    {
        copy_text(&self.version)
    }

    /// What the file `lock` holds.
    pub fn lock(&self) -> (text: Option<String>)
        ensures
            text_view(text) == self@.lock,
    {
        copy_text(&self.lock)
    }

    /// What the file `index.json` holds.
    pub fn index(&self) -> (text: Option<String>)
        ensures
            text_view(text) == self@.index,
    {
        copy_text(&self.index)
    }

    /// Records whether the base directory exists.
    pub fn set_root(&mut self, root: bool)
        ensures
            final(self)@ == (DiskView { root, ..old(self)@ }),
    {
        self.root = root;
    }

    /// Writes or removes the file `version`.
    pub fn set_version(&mut self, text: Option<String>)
        ensures
            final(self)@ == (DiskView { version: text_view(text), ..old(self)@ }),
    {
        self.version = text;
    }

    /// Writes or removes the file `lock`.
    pub fn set_lock(&mut self, text: Option<String>)
        ensures
            final(self)@ == (DiskView { lock: text_view(text), ..old(self)@ }),
    {
        self.lock = text;
    }

    /// Writes or removes the file `index.json`.
    pub fn set_index(&mut self, text: Option<String>)
        ensures
            final(self)@ == (DiskView { index: text_view(text), ..old(self)@ }),
    {
        self.index = text;
    }

    /// Whether the directory `dir` exists.
    pub fn is_dir(&self, dir: &String) -> (yes: bool)
        ensures
            yes == self@.has_dir(dir@),
    {
        let mut i: usize = 0;
        while i < self.dirs.len()
            invariant
                i <= self.dirs.len(),
                forall|j: int| 0 <= j < i ==> self.dirs[j]@ != dir@,
            decreases self.dirs.len() - i,
        {
            if self.dirs[i] == *dir {
                assert(self@.dirs[i as int] == dir@);
                return true;
            }
            i += 1;
        }
        false
    }

    /// Creates the directory `dir`, if it is not there.
    pub fn make_dir(&mut self, dir: &String)
        ensures
            final(self)@ == old(self)@.with_dir(dir@),
    {
        if !self.is_dir(dir) {
            self.dirs.push(dir.clone());
            assert(self@.dirs =~= old(self)@.dirs.push(dir@));
        }
    }

    /// The place of the file of the document `name` of `dir`.
    fn find(&self, dir: &String, name: &String) -> (found: Option<usize>)
        ensures
            match found {
                Some(k) => self@.is_at(dir@, name@, k as int),
                None => !self@.has_doc(dir@, name@),
            },
    {
        let mut i: usize = 0;
        while i < self.docs.len()
            invariant
                i <= self.docs.len(),
                forall|j: int| 0 <= j < i ==> !doc_at(self@.docs, dir@, name@, j),
            decreases self.docs.len() - i,
        {
            if self.docs[i].0 == *dir && self.docs[i].1 == *name {
                return Some(i);
            }
            i += 1;
        }
        None
    }

    /// Whether the document `name` of `dir` has a file.
    pub fn is_file(&self, dir: &String, name: &String) -> (yes: bool)
        ensures
            yes == self@.has_doc(dir@, name@),
    {
        self.find(dir, name).is_some()
    }

    /// The text of the document `name` of `dir`, if it has a file.
    pub fn read(&self, dir: &String, name: &String) -> (text: Option<String>)
        requires
            self.wf(),
        ensures
            text_view(text) == self@.text_of(dir@, name@),
    {
        match self.find(dir, name) {
            Some(k) => {
                proof {
                    lemma_place(self@, dir@, name@, k as int);
                }
                Some(self.docs[k].2.clone())
            },
            None => None,
        }
    }

    /// Writes `text` to the file of the document `name` of `dir`.
    pub fn write(&mut self, dir: &String, name: &String, text: String)
        requires
            old(self).wf(),
        ensures
            final(self).wf(),
            final(self)@ == old(self)@.with_doc(dir@, name@, text@),
    {
        proof {
            lemma_with_doc(self@, dir@, name@, text@);
        }
        match self.find(dir, name) {
            Some(k) => {
                proof {
                    lemma_place(self@, dir@, name@, k as int);
                }
                self.docs.set(k, (dir.clone(), name.clone(), text));
                assert(self@.docs =~= old(self)@.docs.update(k as int, (dir@, name@, text@)));
            },
            None => {
                self.docs.push((dir.clone(), name.clone(), text));
                assert(self@.docs =~= old(self)@.docs.push((dir@, name@, text@)));
            },
        }
    }

    /// Removes the file of the document `name` of `dir`; says whether there was one.
    pub fn remove(&mut self, dir: &String, name: &String) -> (removed: bool)
        requires
            old(self).wf(),
        ensures
            final(self).wf(),
            removed == old(self)@.has_doc(dir@, name@),
            final(self)@ == old(self)@.without_doc(dir@, name@),
    {
        proof {
            lemma_without_doc(self@, dir@, name@);
        }
        match self.find(dir, name) {
            Some(k) => {
                proof {
                    lemma_place(self@, dir@, name@, k as int);
                }
                self.docs.remove(k);
                assert(self@.docs =~= old(self)@.docs.remove(k as int));
                true
            },
            None => false,
        }
    }

    /// The documents of `dir`, as pairs of name and text, in listing order.
    pub fn list(&self, dir: &String) -> (found: Vec<(String, String)>)
        ensures
            pairs_view(found@) == self@.listing(dir@),
    {
        let mut found: Vec<(String, String)> = Vec::new();
        let mut i: usize = 0;
        assert(self@.docs.take(0) =~= Seq::empty());
        while i < self.docs.len()
            invariant
                i <= self.docs.len(),
                pairs_view(found@) =~= list_docs(self@.docs.take(i as int), dir@),
            decreases self.docs.len() - i,
        {
            assert(self@.docs.take(i + 1).drop_last() =~= self@.docs.take(i as int));
            if self.docs[i].0 == *dir {
                found.push((self.docs[i].1.clone(), self.docs[i].2.clone()));
            }
            i += 1;
        }
        assert(self@.docs.take(i as int) =~= self@.docs);
        found
    }

    /// The directories that exist.
    pub fn dirs(&self) -> (dirs: Vec<String>)
        ensures
            names_view(dirs@) == self@.dirs,
    {
        let mut dirs: Vec<String> = Vec::new();
        let mut i: usize = 0;
        while i < self.dirs.len()
            invariant
                i <= self.dirs.len(),
                dirs.len() == i,
                forall|j: int| 0 <= j < i ==> dirs[j]@ == self.dirs[j]@,
            decreases self.dirs.len() - i,
        {
            dirs.push(self.dirs[i].clone());
            i += 1;
        }
        assert(names_view(dirs@) =~= self@.dirs);
        dirs
    }

    /// The document files: directory, document name and text of each.
    pub fn docs(&self) -> (docs: Vec<(String, String, String)>)
        ensures
            docs_view(docs@) == self@.docs,
    {
        let mut docs: Vec<(String, String, String)> = Vec::new();
        let mut i: usize = 0;
        while i < self.docs.len()
            invariant
                i <= self.docs.len(),
                docs.len() == i,
                forall|j: int| 0 <= j < i ==> docs_view(docs@)[j] == self@.docs[j],
            decreases self.docs.len() - i,
        {
            docs.push((self.docs[i].0.clone(), self.docs[i].1.clone(), self.docs[i].2.clone()));
            i += 1;
        }
        assert(docs_view(docs@) =~= self@.docs);
        docs
    }
}

} // verus!
