//! The root of a store: its base directory and its lock.

use vstd::prelude::*;
use crate::collection::Collection;
use crate::disk::{Disk, DiskView};
use crate::error::StoreError;

verus! {

/// The mathematical value of a [`Db`].
pub struct DbView {
    /// The path of the base directory.
    pub base: Seq<char>,
    /// Whether this handle takes itself for the holder of the lock.
    pub lock: bool,
    /// The identifier of the process, as written to the lock file.
    pub pid: Seq<char>,
}

/// The root of a store of collections and documents.
///
/// A collection holds documents, a document holds JSON and may hold
/// collections of its own.
pub struct Db {
    base: String,
    lock: bool,
    pid: String,
}

impl View for Db {
    type V = DbView;

    closed spec fn view(&self) -> DbView {
        DbView { base: self.base@, lock: self.lock, pid: self.pid@ }
    }
}

impl Clone for Db {
    fn clone(&self) -> (db: Db)
        ensures
            db@ == self@,
    {
        Db { base: self.base.clone(), lock: self.lock, pid: self.pid.clone() }
    }
}

/// The text of an index without collections.
pub open spec fn empty_index() -> Seq<char> {
    seq!['{', '}']
}

/// The text of the version marker.
pub open spec fn version_mark() -> Seq<char> {
    seq!['1']
}

/// The image after a store was opened on it: a base directory that was
/// missing is created with an empty index and the version marker.
pub open spec fn opened(disk: DiskView) -> DiskView {
    if disk.root {
        disk
    } else {
        DiskView { root: true, index: Some(empty_index()), version: Some(version_mark()), ..disk }
    }
}

/// A handle that takes itself for the holder finds its identifier in the lock file.
pub open spec fn lock_held(db: DbView, disk: DiskView) -> bool {
    db.lock ==> disk.lock == Some(db.pid)
}

/// The identifier in the lock file, where the file is another's and the
/// handle does not hold the lock.
pub open spec fn foreign_holder(db: DbView, disk: DiskView) -> Option<Seq<char>> {
    if !db.lock && disk.lock is Some && disk.lock != Some(db.pid) {
        disk.lock
    } else {
        None
    }
}

impl Db {
    /// Opens the store at `base` for the process `pid`.
    ///
    /// A base directory that is missing is created, with an empty index and
    /// the version marker. The handle holds the lock from the start exactly
    /// where the lock file already names `pid`.
    pub fn new(base: String, pid: String, disk: &mut Disk) -> (r: Result<Db, StoreError>)
        ensures
            final(disk)@ == opened(old(disk)@),
            old(disk).wf() ==> final(disk).wf(),
            r matches Ok(db) && db@ == (DbView {
                base: base@,
                lock: old(disk)@.lock == Some(pid@),
                pid: pid@,
            }) && lock_held(db@, final(disk)@),
    {
        if !disk.root() {
            disk.set_root(true);
            proof {
                reveal_strlit("{}");
                reveal_strlit("1");
            }
            let index = "{}".to_string();
            let version = "1".to_string();
            assert(index@ =~= empty_index());
            assert(version@ =~= version_mark());
            disk.set_index(Some(index));
            disk.set_version(Some(version));
        }
        let lock = match disk.lock() {
            Some(owner) => owner == pid,
            None => false,
        };
        Ok(Db { base, lock, pid })
    }

    /// The collection `name` directly below the base directory.
    pub fn collection(self, name: &str, disk: &Disk) -> (collection: Collection)
        ensures
            collection@ == Collection::opened(self@, name@, self@.base, disk@),
    {
        Collection::new(self, name, disk)
    }

    /// The path of the base directory.
    pub fn base(&self) -> (base: &String)
        ensures
            base@ == self@.base,
    {
        &self.base
    }

    /// The identifier of the process.
    pub fn pid(&self) -> (pid: &String)
        ensures
            pid@ == self@.pid,
    {
        &self.pid
    }

    /// Whether this handle takes itself for the holder of the lock.
    pub fn is_locked(&self) -> (held: bool)
        ensures
            held == self@.lock,
    {
        self.lock
    }

    /// The process whose liveness decides whether the lock can be taken: the
    /// one that the lock file names, where that is another and this handle
    /// does not hold the lock.
    pub fn holder(&self, disk: &Disk) -> (pid: Option<String>)
        ensures
            crate::disk::text_view(pid) == foreign_holder(self@, disk@),
    {
        if self.lock {
            return None;
        }
        match disk.lock() {
            Some(owner) => if owner == self.pid {
                None
            } else {
                Some(owner)
            },
            None => None,
        }
    }

    /// Takes the lock.
    ///
    /// A handle that holds it already does nothing. Else a lock file with this
    /// process's identifier is taken over; one of another process that is
    /// alive is refused with `AlreadyLocked` and its identifier; a missing one,
    /// or one of a dead process, is written anew. `alive` is the outcome of
    /// the liveness probe of [`Db::holder`]; it is not read where there is
    /// nobody to probe.
    pub fn lock(&mut self, disk: &mut Disk, alive: bool) -> (r: Result<(), StoreError>)
        ensures
            final(self)@.base == old(self)@.base,
            final(self)@.pid == old(self)@.pid,
            old(disk).wf() ==> final(disk).wf(),
            lock_held(old(self)@, old(disk)@) ==> lock_held(final(self)@, final(disk)@),
            match foreign_holder(old(self)@, old(disk)@) {
                Some(owner) if alive => {
                    &&& r matches Err(e) && e@ == crate::error::ErrorView::AlreadyLocked(owner)
                    &&& final(self)@ == old(self)@
                    &&& final(disk)@ == old(disk)@
                },
                _ => {
                    &&& r is Ok
                    &&& final(self)@.lock
                    &&& final(disk)@ == if old(self)@.lock {
                        old(disk)@
                    } else {
                        DiskView { lock: Some(old(self)@.pid), ..old(disk)@ }
                    }
                },
            },
    {
        if !self.lock {
            match disk.lock() {
                Some(owner) => {
                    if owner == self.pid {
                        self.lock = true;
                    } else if alive {
                        return Err(StoreError::AlreadyLocked(owner));
                    } else {
                        disk.set_lock(Some(self.pid.clone()));
                        self.lock = true;
                    }
                },
                None => {
                    disk.set_lock(Some(self.pid.clone()));
                    self.lock = true;
                },
            }
        }
        Ok(())
    }

    /// Gives the lock back.
    ///
    /// A handle that holds the lock removes the lock file, and fails with `Io`
    /// where the file is not there; one that does not hold it does nothing.
    pub fn unlock(&mut self, disk: &mut Disk) -> (r: Result<(), StoreError>)
        ensures
            final(self)@.base == old(self)@.base,
            final(self)@.pid == old(self)@.pid,
            old(disk).wf() ==> final(disk).wf(),
            lock_held(old(self)@, old(disk)@) ==> lock_held(final(self)@, final(disk)@),
            if old(self)@.lock && old(disk)@.lock is None {
                &&& r matches Err(e) && e@ is Io
                &&& final(self)@ == old(self)@
                &&& final(disk)@ == old(disk)@
            } else {
                &&& r is Ok
                &&& !final(self)@.lock
                &&& final(disk)@ == if old(self)@.lock {
                    DiskView { lock: None, ..old(disk)@ }
                } else {
                    old(disk)@
                }
            },
    {
        if self.lock {
            if disk.lock().is_none() {
                return Err(StoreError::Io);
            }
            disk.set_lock(None);
            self.lock = false;
        }
        Ok(())
    }
}

} // verus!
