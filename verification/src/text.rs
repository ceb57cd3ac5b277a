//! Paths and file names, as strings with `/` between the segments.

use vstd::prelude::*;
use vstd::string::*;

verus! {

/// `dir` and `name` with a `/` between them.
pub open spec fn joined(dir: Seq<char>, name: Seq<char>) -> Seq<char> {
    dir + seq!['/'] + name
}

/// The name of a document's file: the document's name and `.json`.
pub open spec fn file_name_of(name: Seq<char>) -> Seq<char> {
    name + seq!['.', 'j', 's', 'o', 'n']
}

/// What is left of `path` below `base`: nothing for `base` itself, the rest
/// after `base` and a `/`, and `None` for a path that is not below `base`.
pub open spec fn below_base(path: Seq<char>, base: Seq<char>) -> Option<Seq<char>> {
    if path == base {
        Some(Seq::empty())
    } else if path.len() > base.len() && path.subrange(0, base.len() as int) == base
        && path[base.len() as int] == '/' {
        Some(path.subrange(base.len() as int + 1, path.len() as int))
    } else {
        None
    }
}

/// The name of the document that a file holds: the file's name without its
/// `.json`, and `None` for a file of another kind.
pub open spec fn document_of(file: Seq<char>) -> Option<Seq<char>> {
    if file.len() >= 5 && file.subrange(file.len() - 5, file.len() as int) == seq![
        '.',
        'j',
        's',
        'o',
        'n',
    ] {
        Some(file.subrange(0, file.len() - 5))
    } else {
        None
    }
}

/// The path of `name` in the directory `dir`.
pub fn join(dir: &String, name: &str) -> (path: String)
    ensures
        path@ == joined(dir@, name@),
{
    let mut path = dir.clone();
    proof {
        reveal_strlit("/");
    }
    path.append("/");
    path.append(name);
    assert("/"@ =~= seq!['/']);
    path
}

/// The name of the file that holds the document `name`.
pub fn document_file(name: &str) -> (file: String)
    ensures
        file@ == file_name_of(name@),
{
    let mut file = name.to_string();
    proof {
        reveal_strlit(".json");
    }
    file.append(".json");
    assert(".json"@ =~= seq!['.', 'j', 's', 'o', 'n']);
    file
}

/// The name of the document that the file `file` holds, if it holds one.
pub fn document_name(file: &str) -> (name: Option<String>)
    ensures
        match name {
            Some(n) => document_of(file@) == Some(n@),
            None => document_of(file@) is None,
        },
{
    let n = file.unicode_len();
    if n < 5 {
        return None;
    }
    let tail = file.substring_char(n - 5, n).to_string();
    proof {
        reveal_strlit(".json");
    }
    let suffix = ".json".to_string();
    assert(".json"@ =~= seq!['.', 'j', 's', 'o', 'n']);
    if tail == suffix {
        Some(file.substring_char(0, n - 5).to_string())
    } else {
        None
    }
}

/// The path of `path` relative to `base`, if it lies below `base`.
pub fn strip_base(path: &str, base: &str) -> (rest: Option<String>)
    ensures
        match rest {
            Some(r) => below_base(path@, base@) == Some(r@),
            None => below_base(path@, base@) is None,
        },
{
    let n = base.unicode_len();
    let m = path.unicode_len();
    if m == n {
        if path.to_string() == base.to_string() {
            Some(String::new())
        } else {
            None
        }
    } else if m > n {
        let head = path.substring_char(0, n).to_string();
        if head == base.to_string() && path.get_char(n) == '/' {
            Some(path.substring_char(n + 1, m).to_string())
        } else {
            None
        }
    } else {
        None
    }
}

} // verus!
