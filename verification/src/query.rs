//! Queries: equality and range scans over the sorted list of an indexed field.

use vstd::prelude::*;
use crate::collection::{collection_fields, id_handles, index_members, Collection, CollectionView};
use crate::disk::{names_view, Disk, DiskView};
use crate::error::{ErrorView, StoreError};
use crate::index::{entries_of, read_entries};
use crate::json::parse;
use crate::text::{below_base, strip_base};
use crate::document::{IdDocument, IdDocumentView};
use crate::value::{lemma_object_view, lookup, value_order, value_order_of, Json, JsonView, Order};

verus! {

/// How a query compares the indexed value with its own.
#[derive(Clone, Copy, Debug, PartialEq, Eq, Structural)]
pub enum Condition {
    Equal,
    NotEqual,
    Greater,
    Less,
    GreaterOrEqual,
    LessOrEqual,
}

/// One entry of an index list: the value of the field, and the identifier of
/// the document that has it.
pub type EntryView = (JsonView, Seq<char>);

/// The views of a list of entries.
pub open spec fn entries_view(entries: Seq<(Json, String)>) -> Seq<EntryView> {
    Seq::new(entries.len(), |i: int| (entries[i].0@, entries[i].1@))
}

/// Whether `x` is below `val`: less than it, or, unless `strict`, equal to it.
pub open spec fn below(x: JsonView, val: JsonView, strict: bool) -> bool {
    value_order(x, val) is Less || (!strict && value_order(x, val) is Equal)
}

/// Whether the indexed value `x` meets the condition against `val`.
pub open spec fn satisfies(cond: Condition, x: JsonView, val: JsonView) -> bool {
    match cond {
        Condition::Equal => value_order(x, val) is Equal,
        Condition::NotEqual => !(value_order(x, val) is Equal),
        Condition::Greater => value_order(x, val) is Greater,
        Condition::Less => value_order(x, val) is Less,
        Condition::GreaterOrEqual => !(value_order(x, val) is Less),
        Condition::LessOrEqual => !(value_order(x, val) is Greater),
    }
}

/// The list is ranked against `val`: the entries below `val` come first.
pub open spec fn ranked(s: Seq<EntryView>, val: JsonView, strict: bool) -> bool {
    forall|i: int, j: int|
        0 <= i <= j < s.len() && below((#[trigger] s[j]).0, val, strict) ==> below(
            (#[trigger] s[i]).0,
            val,
            strict,
        )
}

/// The part of the list that a binary search looks at.
pub open spec fn window(bounds: Option<(usize, usize)>, len: nat) -> (int, int) {
    match bounds {
        Some(b) => (b.0 as int, b.1 as int),
        None => (0, len - 1),
    }
}

/// Whether `n` cuts the list where the entries stop being below `val`: the
/// entry before the cut is below, the entry at the cut is not.
pub open spec fn is_cut(s: Seq<EntryView>, val: JsonView, strict: bool, n: int) -> bool {
    &&& 0 <= n <= s.len()
    &&& n > 0 ==> below(s[n - 1].0, val, strict)
    &&& n < s.len() ==> !below(s[n].0, val, strict)
}

/// In a ranked list a cut parts the entries exactly: those before it are
/// below `val`, those from it on are not.
pub proof fn lemma_cut_exact(s: Seq<EntryView>, val: JsonView, strict: bool, n: int)
    requires
        ranked(s, val, strict),
        is_cut(s, val, strict, n),
    ensures
        forall|i: int| 0 <= i < s.len() ==> (below((#[trigger] s[i]).0, val, strict) <==> i < n),
{
    assert forall|i: int| 0 <= i < s.len() implies (below((#[trigger] s[i]).0, val, strict) <==> i
        < n) by {
        if i < n {
            assert(below(s[n - 1].0, val, strict));
        } else {
            if below(s[i].0, val, strict) {
                assert(below(s[n].0, val, strict));
            }
        }
    }
}

/// The list is sorted as far as `val` can tell: ranked against it with and
/// without equality.
pub open spec fn sorted_for(s: Seq<EntryView>, val: JsonView) -> bool {
    ranked(s, val, true) && ranked(s, val, false)
}

/// The identifiers of the entries, in order.
pub open spec fn ids_of(s: Seq<EntryView>) -> Seq<Seq<char>> {
    Seq::new(s.len(), |i: int| s[i].1)
}

/// The identifiers of the entries whose value meets the condition, in order.
pub open spec fn pick(s: Seq<EntryView>, cond: Condition, val: JsonView) -> Seq<Seq<char>>
    decreases s.len(),
{
    if s.len() == 0 {
        Seq::empty()
    } else {
        let rest = pick(s.drop_last(), cond, val);
        if satisfies(cond, s.last().0, val) {
            rest.push(s.last().1)
        } else {
            rest
        }
    }
}

/// The identifiers that a query takes from the list, given the window
/// `a..b`: those inside it, or for `NotEqual` those outside it.
pub open spec fn part(s: Seq<EntryView>, cond: Condition, a: int, b: int) -> Seq<Seq<char>> {
    if cond is NotEqual {
        ids_of(s.take(a)) + ids_of(s.skip(b))
    } else {
        ids_of(s.subrange(a, b))
    }
}

/// Whether `b` is the end of the window of entries equal to `val` that
/// starts at `a`: the cut below which the entries are less or equal, or `a`
/// itself where that cut comes before it.
pub open spec fn upper_cut(s: Seq<EntryView>, val: JsonView, a: int, b: int) -> bool {
    exists|c: int| #[trigger]
        is_cut(s, val, false, c) && b == if c >= a {
            c
        } else {
            a
        }
}

/// Whether `a..b` is a window that a query with `cond` may take: its ends
/// are cuts of the list against `val`, or the ends of the list.
pub open spec fn spans(s: Seq<EntryView>, cond: Condition, val: JsonView, a: int, b: int) -> bool {
    &&& 0 <= a <= b <= s.len()
    &&& match cond {
        Condition::Less => a == 0 && is_cut(s, val, true, b),
        Condition::LessOrEqual => a == 0 && is_cut(s, val, false, b),
        Condition::Greater => b == s.len() && is_cut(s, val, false, a),
        Condition::GreaterOrEqual => b == s.len() && is_cut(s, val, true, a),
        Condition::Equal => is_cut(s, val, true, a) && upper_cut(s, val, a, b),
        Condition::NotEqual => is_cut(s, val, true, a) && upper_cut(s, val, a, b),
    }
}

/// Where the entries that meet the condition are exactly those inside the
/// window, or for `NotEqual` outside it, the window's part of the list is
/// what the condition picks.
pub proof fn lemma_pick_part(s: Seq<EntryView>, cond: Condition, val: JsonView, a: int, b: int)
    requires
        0 <= a <= b <= s.len(),
        forall|i: int|
            0 <= i < s.len() ==> (satisfies(cond, (#[trigger] s[i]).0, val) <==> if cond
                is NotEqual {
                !(a <= i < b)
            } else {
                a <= i < b
            }),
    ensures
        pick(s, cond, val) == part(s, cond, a, b),
    decreases s.len(),
{
    if s.len() == 0 {
        assert(part(s, cond, a, b) =~= Seq::empty());
    } else {
        let n = s.len() - 1;
        let t = s.drop_last();
        let a2 = if a < n {
            a
        } else {
            n
        };
        let b2 = if b < n {
            b
        } else {
            n
        };
        assert forall|i: int| 0 <= i < t.len() implies (satisfies(cond, (#[trigger] t[i]).0, val)
            <==> if cond is NotEqual {
            !(a2 <= i < b2)
        } else {
            a2 <= i < b2
        }) by {
            assert(t[i] == s[i]);
        }
        lemma_pick_part(t, cond, val, a2, b2);
        assert(s.last() == s[n]);
        if cond is NotEqual {
            if b <= n {
                assert(part(s, cond, a, b) =~= part(t, cond, a2, b2).push(s[n].1));
            } else if a <= n {
                assert(part(s, cond, a, b) =~= part(t, cond, a2, b2));
            } else {
                assert(part(s, cond, a, b) =~= part(t, cond, a2, b2).push(s[n].1));
            }
        } else {
            if a <= n && b == s.len() {
                assert(part(s, cond, a, b) =~= part(t, cond, a2, b2).push(s[n].1));
            } else {
                assert(part(s, cond, a, b) =~= part(t, cond, a2, b2));
            }
        }
    }
}

/// In a list that is sorted as far as `val` can tell, every window that a
/// query may take holds exactly the entries that meet the condition.
pub proof fn lemma_span_exact(s: Seq<EntryView>, cond: Condition, val: JsonView, a: int, b: int)
    requires
        sorted_for(s, val),
        spans(s, cond, val, a, b),
    ensures
        part(s, cond, a, b) == pick(s, cond, val),
{
    match cond {
        Condition::Less => {
            lemma_cut_exact(s, val, true, b);
        },
        Condition::LessOrEqual => {
            lemma_cut_exact(s, val, false, b);
        },
        Condition::Greater => {
            lemma_cut_exact(s, val, false, a);
        },
        Condition::GreaterOrEqual => {
            lemma_cut_exact(s, val, true, a);
        },
        _ => {
            let c = choose|c: int| #[trigger]
                is_cut(s, val, false, c) && b == if c >= a {
                    c
                } else {
                    a
                };
            lemma_cut_exact(s, val, true, a);
            lemma_cut_exact(s, val, false, c);
            if c < a {
                assert(below(s[c].0, val, true));
            }
        },
    }
    lemma_pick_part(s, cond, val, a, b);
}

/// Whether `ids` is what a query takes from the list: the part of a window
/// that the query may take, which in a list that is sorted as far as `val`
/// can tell is exactly what the condition picks.
pub open spec fn selects(s: Seq<EntryView>, cond: Condition, val: JsonView, ids: Seq<Seq<char>>) -> bool {
    &&& exists|a: int, b: int| #[trigger] spans(s, cond, val, a, b) && ids == part(s, cond, a, b)
    &&& sorted_for(s, val) ==> ids == pick(s, cond, val)
}

/// The identifiers of `fresh`, in order and each once, that `current` has too.
pub open spec fn common(fresh: Seq<Seq<char>>, current: Seq<Seq<char>>) -> Seq<Seq<char>>
    decreases fresh.len(),
{
    if fresh.len() == 0 {
        Seq::empty()
    } else {
        let rest = common(fresh.drop_last(), current);
        if current.contains(fresh.last()) && !rest.contains(fresh.last()) {
            rest.push(fresh.last())
        } else {
            rest
        }
    }
}

/// The identifiers of a list of documents.
pub open spec fn doc_ids(documents: Seq<IdDocumentView>) -> Seq<Seq<char>> {
    Seq::new(documents.len(), |i: int| documents[i].id)
}

/// The index list that a search of `key` reads: none for a collection whose
/// handle saw no directory or whose index has no list for `key`; `Io` for a
/// collection outside the base directory or a missing index file;
/// `Malformed` for an index that is no JSON object or a list that is no list
/// of entries.
pub open spec fn searched(collection: CollectionView, key: Seq<char>, disk: DiskView) -> Result<Option<Seq<EntryView>>, ErrorView> {
    if !collection.exist {
        Ok(None)
    } else {
        match (below_base(collection.path, collection.db.base), disk.index) {
            (Some(rel), Some(text)) => match index_members(text) {
                None => Err(ErrorView::Malformed),
                Some(index) => match lookup(collection_fields(index, rel), key) {
                    None => Ok(None),
                    Some(list) => match entries_of(list) {
                        None => Err(ErrorView::Malformed),
                        Some(entries) => Ok(Some(entries)),
                    },
                },
            },
            _ => Err(ErrorView::Io),
        }
    }
}

/// Whether `x` is below `val`.
pub fn is_below(x: &Json, val: &Json, strict: bool) -> (yes: bool)
    ensures
        yes == below(x@, val@, strict),
{
    match value_order_of(x, val) {
        Order::Less => true,
        Order::Equal => !strict,
        Order::Greater => false,
    }
}

/// The views of a list of documents.
pub open spec fn documents_view(documents: Seq<IdDocument>) -> Seq<IdDocumentView> {
    Seq::new(documents.len(), |i: int| documents[i]@)
}

/// The mathematical value of a [`Where`].
pub struct WhereView {
    pub collection: CollectionView,
    pub result: Seq<IdDocumentView>,
}

/// A query on a collection, with the documents it has found so far.
pub struct Where {
    collection: Collection,
    result: Vec<IdDocument>,
}

impl View for Where {
    type V = WhereView;

    closed spec fn view(&self) -> WhereView {
        WhereView { collection: self.collection@, result: documents_view(self.result@) }
    }
}

impl Clone for Where {
    fn clone(&self) -> (query: Where)
        ensures
            query@ == self@,
    {
        let mut result: Vec<IdDocument> = Vec::new();
        let mut i: usize = 0;
        while i < self.result.len()
            invariant
                i <= self.result.len(),
                result.len() == i,
                forall|j: int| 0 <= j < i ==> result[j]@ == self.result[j]@,
            decreases self.result.len() - i,
        {
            result.push(self.result[i].clone());
            i += 1;
        }
        assert(documents_view(result@) =~= documents_view(self.result@));
        Where { collection: self.collection.copy(), result }
    }
}

/// Whether the list of names has the given name.
pub fn has_name(names: &Vec<String>, name: &String) -> (yes: bool)
    ensures
        yes == names_view(names@).contains(name@),
{
    let mut i: usize = 0;
    while i < names.len()
        invariant
            i <= names.len(),
            forall|j: int| 0 <= j < i ==> names_view(names@)[j] != name@,
        decreases names.len() - i,
    {
        if names[i] == *name {
            assert(names_view(names@)[i as int] == name@);
            return true;
        }
        i += 1;
    }
    false
}

impl Where {
    /// Whether `r` is what a search of the collection for `key`, `cond` and
    /// `value` gives: the error of reading the index list, no document where
    /// there is no list, and else the handles of the documents that the
    /// query takes from the list.
    pub open spec fn finds(
        collection: CollectionView,
        key: Seq<char>,
        cond: Condition,
        value: JsonView,
        disk: DiskView,
        r: Result<Seq<IdDocumentView>, ErrorView>,
    ) -> bool {
        match searched(collection, key, disk) {
            Err(e) => r == Err::<Seq<IdDocumentView>, ErrorView>(e),
            Ok(None) => r == Ok::<Seq<IdDocumentView>, ErrorView>(Seq::empty()),
            Ok(Some(entries)) => {
                &&& r matches Ok(documents)
                &&& selects(entries, cond, value, doc_ids(documents))
                &&& documents == id_handles(collection, doc_ids(documents), disk)
            },
        }
    }

    /// Whether `r` is the query that [`Where::new`] makes.
    pub open spec fn found(
        collection: CollectionView,
        key: Seq<char>,
        cond: Condition,
        value: JsonView,
        disk: DiskView,
        r: Result<Where, StoreError>,
    ) -> bool {
        match r {
            Ok(query) => query@.collection == collection && Self::finds(
                collection,
                key,
                cond,
                value,
                disk,
                Ok(query@.result),
            ),
            Err(e) => Self::finds(collection, key, cond, value, disk, Err(e@)),
        }
    }

    /// The query for the documents of `collection` whose field `key` meets
    /// `cond` against `value`.
    pub fn new(collection: Collection, key: String, cond: Condition, value: Json, disk: &Disk) -> (r:
        Result<Where, StoreError>)
        ensures
            Self::found(collection@, key@, cond, value@, disk@, r),
    {
        let w = Where { collection: collection.copy(), result: Vec::new() };
        match w.search(key, cond, value, disk) {
            Ok(result) => Ok(Where { collection, result }),
            Err(e) => Err(e),
        }
    }

    /// The identifiers that a query takes from a sorted index list: those of
    /// the entries that meet `cond` against `value`, in the list's order.
    ///
    /// The entries are found by binary search, so the result is exact for a
    /// list that is sorted as far as `value` can tell; of any list it is the
    /// part inside a window between two cuts, or for `NotEqual` outside it.
    pub fn select(sorted: &Vec<(Json, String)>, cond: Condition, value: &Json) -> (ids: Vec<String>)
        ensures
            selects(entries_view(sorted@), cond, value@, names_view(ids@)),
    {
        let ghost s = entries_view(sorted@);
        let mut ids: Vec<String> = Vec::new();
        let n = sorted.len();
        let (a, b) = if n == 0 {
            assert(is_cut(s, value@, false, 0));
            (0, 0)
        } else {
            match cond {
                Condition::Less => (0, Self::get_greater(sorted, value, true, None).1),
                Condition::LessOrEqual => (0, Self::get_greater(sorted, value, false, None).1),
                Condition::Greater => (Self::get_less(sorted, value, true).0, n),
                Condition::GreaterOrEqual => (Self::get_less(sorted, value, false).0, n),
                _ => {
                    let r = Self::get_equal(sorted, value);
                    (r.0, r.0 + r.1)
                },
            }
        };
        assert(spans(s, cond, value@, a as int, b as int));
        let mut i: usize = 0;
        match cond {
            Condition::NotEqual => {
                while i < n
                    invariant
                        i <= n,
                        n == sorted.len(),
                        a <= b <= n,
                        s == entries_view(sorted@),
                        names_view(ids@) =~= if i <= a {
                            ids_of(s.take(i as int))
                        } else if i <= b {
                            ids_of(s.take(a as int))
                        } else {
                            ids_of(s.take(a as int)) + ids_of(s.subrange(b as int, i as int))
                        },
                    decreases n - i,
                {
                    let ghost before = names_view(ids@);
                    assert(s[i as int].1 == sorted[i as int].1@);
                    if !(a <= i && i < b) {
                        ids.push(sorted[i].1.clone());
                        assert(names_view(ids@) =~= before.push(s[i as int].1));
                    }
                    assert(ids_of(s.take(i + 1)) =~= ids_of(s.take(i as int)).push(s[i as int].1));
                    if b <= i {
                        assert(ids_of(s.subrange(b as int, i + 1)) =~= ids_of(
                            s.subrange(b as int, i as int),
                        ).push(s[i as int].1));
                    }
                    i += 1;
                }
                assert(names_view(ids@) =~= part(s, cond, a as int, b as int));
            },
            _ => {
                while i < b - a
                    invariant
                        i <= b - a,
                        a <= b <= n,
                        n == sorted.len(),
                        s == entries_view(sorted@),
                        names_view(ids@) =~= ids_of(s.subrange(a as int, a + i)),
                    decreases b - a - i,
                {
                    let ghost before = names_view(ids@);
                    assert(s[a + i].1 == sorted[a + i].1@);
                    ids.push(sorted[a + i].1.clone());
                    assert(names_view(ids@) =~= before.push(s[a + i].1));
                    assert(ids_of(s.subrange(a as int, a + i + 1)) =~= ids_of(
                        s.subrange(a as int, a + i),
                    ).push(s[a + i].1));
                    i += 1;
                }
                assert(names_view(ids@) =~= part(s, cond, a as int, b as int));
            },
        }
        proof {
            if sorted_for(s, value@) {
                lemma_span_exact(s, cond, value@, a as int, b as int);
            }
        }
        ids
    }

    /// Searches the collection's index for the documents whose field `key`
    /// meets `cond` against `value`.
    fn search(self, key: String, cond: Condition, value: Json, disk: &Disk) -> (r: Result<
        Vec<IdDocument>,
        StoreError,
    >)
        ensures
            Self::finds(
                self@.collection,
                key@,
                cond,
                value@,
                disk@,
                match r {
                    Ok(documents) => Ok(documents_view(documents@)),
                    Err(e) => Err(e@),
                },
            ),
    {
        let mut none: Vec<IdDocument> = Vec::new();
        assert(documents_view(none@) =~= Seq::empty());
        if !self.collection.seen() {
            return Ok(none);
        }
        let rel = match strip_base(
            self.collection.path().as_str(),
            self.collection.db().base().as_str(),
        ) {
            Some(rel) => rel,
            None => {
                return Err(StoreError::Io);
            },
        };
        let text = match disk.index() {
            Some(text) => text,
            None => {
                return Err(StoreError::Io);
            },
        };
        let index = match parse(text.as_str()) {
            Ok(Json::Object(index)) => {
                proof {
                    lemma_object_view(index);
                }
                Json::Object(index)
            },
            _ => {
                return Err(StoreError::Malformed);
            },
        };
        let fields = match index.get(&rel) {
            Some(Json::Object(fields)) => {
                proof {
                    lemma_object_view(*fields);
                }
                fields
            },
            _ => {
                return Ok(none);
            },
        };
        let list = match crate::value::get_member(fields, &key) {
            Some(list) => list,
            None => {
                return Ok(none);
            },
        };
        let sorted = match read_entries(list) {
            Some(sorted) => sorted,
            None => {
                return Err(StoreError::Malformed);
            },
        };
        let ids = Self::select(&sorted, cond, &value);
        let found = self.collection.documents(&ids, disk);
        assert(doc_ids(documents_view(found@)) =~= names_view(ids@));
        Ok(found)
    }

    /// Narrows the query to the documents whose field `key` also meets
    /// `cond` against `value`, and returns a copy of the narrowed query.
    ///
    /// The result holds, in the order of the new search and each once, the
    /// documents of the new search that the query had found before. On an
    /// error the query is unchanged.
    pub fn wherr(&mut self, key: String, cond: Condition, value: Json, disk: &Disk) -> (r: Result<
        Where,
        StoreError,
    >)
        ensures
            final(self)@.collection == old(self)@.collection,
            match r {
                Ok(query) => {
                    &&& query@ == final(self)@
                    &&& exists|fresh: Seq<IdDocumentView>| #[trigger]
                        Self::finds(old(self)@.collection, key@, cond, value@, disk@, Ok(fresh))
                            && final(self)@.result == id_handles(
                            old(self)@.collection,
                            common(doc_ids(fresh), doc_ids(old(self)@.result)),
                            disk@,
                        )
                },
                Err(e) => {
                    &&& final(self)@ == old(self)@
                    &&& Self::finds(old(self)@.collection, key@, cond, value@, disk@, Err(e@))
                },
            },
    {
        let fresh = match self.clone().search(key, cond, value, disk) {
            Ok(fresh) => fresh,
            Err(e) => {
                return Err(e);
            },
        };
        let mut current: Vec<String> = Vec::new();
        let mut i: usize = 0;
        while i < self.result.len()
            invariant
                i <= self.result.len(),
                current.len() == i,
                forall|j: int| 0 <= j < i ==> current[j]@ == self.result[j].id@,
            decreases self.result.len() - i,
        {
            current.push(self.result[i].id.clone());
            i += 1;
        }
        assert(names_view(current@) =~= doc_ids(self@.result));
        let ghost f = doc_ids(documents_view(fresh@));
        let ghost c = names_view(current@);
        let mut both: Vec<String> = Vec::new();
        let mut k: usize = 0;
        assert(f.take(0) =~= Seq::empty());
        while k < fresh.len()
            invariant
                k <= fresh.len(),
                f == doc_ids(documents_view(fresh@)),
                c == names_view(current@),
                names_view(both@) =~= common(f.take(k as int), c),
            decreases fresh.len() - k,
        {
            assert(f.take(k + 1).drop_last() =~= f.take(k as int));
            assert(f.take(k + 1).last() == fresh[k as int].id@);
            if has_name(&current, &fresh[k].id) && !has_name(&both, &fresh[k].id) {
                both.push(fresh[k].id.clone());
            }
            k += 1;
        }
        assert(f.take(k as int) =~= f);
        self.result = self.collection.documents(&both, disk);
        Ok(self.clone())
    }

    /// The documents that the query has found.
    pub fn get(self) -> (result: Vec<IdDocument>)
        ensures
            documents_view(result@) == self@.result,
    {
        self.result
    }

    /// Finds by binary search where the entries of `v` stop being below
    /// `val`, and returns `(0, n)` for the `n` entries before that place.
    ///
    /// The search stays inside `bounds`, or takes the whole list where there
    /// are none. Of every list it finds a cut inside the bounds: `n` is 0 and
    /// the first entry looked at is not below, or the entry before `n` is
    /// below and the one at `n`, if the bounds reach it, is not. In a list
    /// that is ranked against `val`, searched whole, the entries below `val`
    /// are exactly the first `n`.
    pub fn get_greater(
        v: &Vec<(Json, String)>,
        val: &Json,
        strict: bool,
        bounds: Option<(usize, usize)>,
    ) -> (r: (usize, usize))
        requires
            v.len() > 0,
            bounds matches Some(b) ==> b.0 <= b.1 < v.len(),
        ensures
            r.0 == 0,
            r.1 == 0 || window(bounds, v@.len()).0 < r.1 <= window(bounds, v@.len()).1 + 1,
            r.1 == 0 ==> !below(
                entries_view(v@)[window(bounds, v@.len()).0].0,
                val@,
                strict,
            ),
            r.1 > 0 ==> below(entries_view(v@)[r.1 - 1].0, val@, strict),
            0 < r.1 <= window(bounds, v@.len()).1 ==> !below(
                entries_view(v@)[r.1 as int].0,
                val@,
                strict,
            ),
            bounds is None ==> is_cut(entries_view(v@), val@, strict, r.1 as int),
            bounds is None && ranked(entries_view(v@), val@, strict) ==> forall|i: int|
                0 <= i < v.len() ==> (below((#[trigger] entries_view(v@)[i]).0, val@, strict) <==> i
                    < r.1),
        decreases window(bounds, v@.len()).1 - window(bounds, v@.len()).0,
    {
        let (lo, hi) = match bounds {
            Some(b) => b,
            None => (0, v.len() - 1),
        };
        let r = if lo >= hi {
            if is_below(&v[hi].0, val, strict) {
                (0, hi + 1)
            } else {
                (0, 0)
            }
        } else {
            let mid = lo + (hi - lo + 1) / 2;
            if is_below(&v[mid].0, val, strict) {
                Self::get_greater(v, val, strict, Some((mid, hi)))
            } else {
                Self::get_greater(v, val, strict, Some((lo, lo + (hi - lo) / 2)))
            }
        };
        proof {
            if bounds is None && ranked(entries_view(v@), val@, strict) {
                lemma_cut_exact(entries_view(v@), val@, strict, r.1 as int);
            }
        }
        r
    }

    /// The entries of `v` that are not below `val`, as `(n, v.len() - n)`
    /// for the place `n` that [`Where::get_greater`] finds with the opposite
    /// strictness: with `strict` those greater than `val`, without it those
    /// greater or equal.
    pub fn get_less(v: &Vec<(Json, String)>, val: &Json, strict: bool) -> (r: (usize, usize))
        requires
            v.len() > 0,
        ensures
            r.0 + r.1 == v.len(),
            is_cut(entries_view(v@), val@, !strict, r.0 as int),
            ranked(entries_view(v@), val@, !strict) ==> forall|i: int|
                0 <= i < v.len() ==> (below((#[trigger] entries_view(v@)[i]).0, val@, !strict) <==> i
                    < r.0),
    {
        let g = Self::get_greater(v, val, !strict, None).1;
        (g, v.len() - g)
    }

    /// The entries of `v` that are equal to `val`, as `(start, length)`:
    /// from the cut below which the entries are less than `val` to the cut
    /// below which they are less or equal; empty where the second cut comes
    /// before the first.
    pub fn get_equal(v: &Vec<(Json, String)>, val: &Json) -> (r: (usize, usize))
        requires
            v.len() > 0,
        ensures
            r.0 + r.1 <= v.len(),
            is_cut(entries_view(v@), val@, true, r.0 as int),
            upper_cut(entries_view(v@), val@, r.0 as int, r.0 + r.1),
            ranked(entries_view(v@), val@, true) && ranked(entries_view(v@), val@, false)
                ==> forall|i: int|
                0 <= i < v.len() ==> (value_order((#[trigger] entries_view(v@)[i]).0, val@) is Equal
                    <==> r.0 <= i < r.0 + r.1),
    {
        let less = Self::get_less(v, val, false);
        let greater = Self::get_greater(v, val, false, None);
        assert(is_cut(entries_view(v@), val@, false, greater.1 as int));
        if greater.1 >= less.0 {
            (less.0, greater.1 - less.0)
        } else {
            (less.0, 0)
        }
    }
}

} // verus!
