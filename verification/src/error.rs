//! The errors that the store reports.

use vstd::prelude::*;

verus! {

/// What can go wrong in a store operation.
#[derive(Debug)]
pub enum StoreError {
    /// A file that an operation needs is not there.
    Io,
    /// A file does not hold the JSON that the operation expects.
    Malformed,
    /// A write was attempted without holding the lock.
    Unlocked,
    /// Another live process holds the lock; the field is what the lock file holds.
    AlreadyLocked(String),
}

/// The mathematical value of an [`StoreError`].
pub enum ErrorView {
    Io,
    Malformed,
    Unlocked,
    AlreadyLocked(Seq<char>),
}

impl View for StoreError {
    type V = ErrorView;

    open spec fn view(&self) -> ErrorView {
        match self {
            StoreError::Io => ErrorView::Io,
            StoreError::Malformed => ErrorView::Malformed,
            StoreError::Unlocked => ErrorView::Unlocked,
            StoreError::AlreadyLocked(pid) => ErrorView::AlreadyLocked(pid@),
        }
    }
}

/// The mathematical value of the outcome of an operation that returns nothing.
pub open spec fn unit_view(r: Result<(), StoreError>) -> Result<(), ErrorView> {
    match r {
        Ok(_) => Ok(()),
        Err(e) => Err(e@),
    }
}

impl StoreError {
    /// A sentence for the error, for logs and replies.
    pub fn message(&self) -> (text: String)
        ensures
            self@ is Io ==> text@ == "I/O error"@,
            self@ is Malformed ==> text@ == "Malformed JSON"@,
            self@ is Unlocked ==> text@ == "You should lock the db"@,
            self@ is AlreadyLocked ==> text@ == "Another process is locking the db (pid = "@
                + self@->AlreadyLocked_0 + ")"@,
    {
        match self {
            StoreError::Io => "I/O error".to_string(),
            StoreError::Malformed => "Malformed JSON".to_string(),
            StoreError::Unlocked => "You should lock the db".to_string(),
            StoreError::AlreadyLocked(pid) => {
                let mut text = "Another process is locking the db (pid = ".to_string();
                text.append(pid.as_str());
                text.append(")");
                text
            },
        }
    }
}

} // verus!
