//! The index: per collection and per field, the sorted list of the field's
//! values with the documents that have them.

use vstd::prelude::*;
use crate::json::{json_parse, parse};
use crate::query::{entries_view, EntryView};
use crate::value::{
    comparable, field, is_comparable, items_view, lemma_array_view, put, put_member, drop_member,
    take_out, value_order, value_order_of, Json, JsonView, MembersView, Order,
};

verus! {

/// A directory listing: the name and the text of each document.
pub type ListingView = Seq<(Seq<char>, Seq<char>)>;

/// The entry that one item of an index list stands for: the item is an array
/// that starts with a value and a string, the identifier.
pub open spec fn entry_of(item: JsonView) -> Option<EntryView> {
    match item {
        JsonView::Array(pair) => if pair.len() >= 2 {
            match pair[1] {
                JsonView::String(id) => Some((pair[0], id)),
                _ => None,
            }
        } else {
            None
        },
        _ => None,
    }
}

/// The entries that an index list stands for: the list is an array, and
/// every item of it stands for an entry.
pub open spec fn entries_of(list: JsonView) -> Option<Seq<EntryView>> {
    match list {
        JsonView::Array(items) => if forall|i: int|
            0 <= i < items.len() ==> (#[trigger] entry_of(items[i])) is Some {
            Some(Seq::new(items.len(), |i: int| entry_of(items[i])->0))
        } else {
            None
        },
        _ => None,
    }
}

/// The item that stands for an entry: the value and the identifier, as an array.
pub open spec fn item_of(entry: EntryView) -> JsonView {
    JsonView::Array(seq![entry.0, JsonView::String(entry.1)])
}

/// The index list that stands for the entries.
pub open spec fn list_of(entries: Seq<EntryView>) -> JsonView {
    JsonView::Array(Seq::new(entries.len(), |i: int| item_of(entries[i])))
}

/// A list written from entries is read back as the same entries.
pub proof fn lemma_list_round_trip(entries: Seq<EntryView>)
    ensures
        entries_of(list_of(entries)) == Some(entries),
{
    let items = list_of(entries)->Array_0;
    assert forall|i: int| 0 <= i < items.len() implies (#[trigger] entry_of(items[i])) == Some(
        entries[i],
    ) by {
        assert(items[i] == item_of(entries[i]));
    }
    assert(entries_of(list_of(entries))->0 =~= entries);
}

/// The entry that a document gives for `key`: the document's text is JSON,
/// an object, and has under `key` a value that can be ordered.
pub open spec fn candidate(name: Seq<char>, text: Seq<char>, key: Seq<char>) -> Option<EntryView> {
    match json_parse(text) {
        Some(doc) => match field(doc, key) {
            Some(value) => if comparable(value) {
                Some((value, name))
            } else {
                None
            },
            None => None,
        },
        None => None,
    }
}

/// The entries that the documents of a listing give for `key`, in listing order.
pub open spec fn candidates(docs: ListingView, key: Seq<char>) -> Seq<EntryView>
    decreases docs.len(),
{
    if docs.len() == 0 {
        Seq::empty()
    } else {
        let rest = candidates(docs.drop_last(), key);
        match candidate(docs.last().0, docs.last().1, key) {
            Some(entry) => rest.push(entry),
            None => rest,
        }
    }
}

/// Where a value goes into a sorted list: behind the last entry that is not
/// greater than it.
pub open spec fn insert_place(s: Seq<EntryView>, value: JsonView) -> int
    decreases s.len(),
{
    if s.len() == 0 {
        0
    } else if value_order(s.last().0, value) is Greater {
        insert_place(s.drop_last(), value)
    } else {
        s.len() as int
    }
}

/// The entries sorted by value, each put in turn behind the last entry that
/// is not greater: entries that the order does not part keep their order.
pub open spec fn sort_entries(s: Seq<EntryView>) -> Seq<EntryView>
    decreases s.len(),
{
    if s.len() == 0 {
        Seq::empty()
    } else {
        let rest = sort_entries(s.drop_last());
        rest.insert(insert_place(rest, s.last().0), s.last())
    }
}

/// The index list of `key` for the documents of a listing.
pub open spec fn key_entries(docs: ListingView, key: Seq<char>) -> Seq<EntryView> {
    sort_entries(candidates(docs, key))
}

/// The fields of a collection's index after `key` was indexed anew: its list
/// is replaced, and taken out where no document gives an entry.
pub open spec fn reindex_key(fields: MembersView, docs: ListingView, key: Seq<char>) -> MembersView {
    let entries = key_entries(docs, key);
    if entries.len() == 0 {
        drop_member(fields, key)
    } else {
        put_member(fields, key, list_of(entries))
    }
}

/// The fields of a collection's index after each of `keys` was indexed anew, in turn.
pub open spec fn reindex_keys(fields: MembersView, docs: ListingView, keys: Seq<Seq<char>>) -> MembersView
    decreases keys.len(),
{
    if keys.len() == 0 {
        fields
    } else {
        reindex_key(reindex_keys(fields, docs, keys.drop_last()), docs, keys.last())
    }
}

/// The keys of a list of members, in order.
pub open spec fn keys_of(members: MembersView) -> Seq<Seq<char>> {
    Seq::new(members.len(), |i: int| members[i].0)
}

/// Reads an index list.
pub fn read_entries(list: &Json) -> (entries: Option<Vec<(Json, String)>>)
    ensures
        match entries {
            Some(e) => entries_of(list@) == Some(entries_view(e@)),
            None => entries_of(list@) is None,
        },
{
    match list {
        Json::Array(items) => {
            proof {
                lemma_array_view(*items);
            }
            let mut entries: Vec<(Json, String)> = Vec::new();
            let mut i: usize = 0;
            while i < items.len()
                invariant
                    i <= items.len(),
                    entries.len() == i,
                    list@ == JsonView::Array(items_view(items@)),
                    forall|j: int|
                        0 <= j < i ==> (#[trigger] entry_of(items_view(items@)[j])) == Some(
                            entries_view(entries@)[j],
                        ),
                decreases items.len() - i,
            {
                match &items[i] {
                    Json::Array(pair) => {
                        proof {
                            lemma_array_view(*pair);
                        }
                        if pair.len() < 2 {
                            assert(entry_of(items_view(items@)[i as int]) is None);
                            return None;
                        }
                        match &pair[1] {
                            Json::String(id) => {
                                entries.push((pair[0].copy(), id.clone()));
                            },
                            _ => {
                                assert(entry_of(items_view(items@)[i as int]) is None);
                                return None;
                            },
                        }
                    },
                    _ => {
                        assert(entry_of(items_view(items@)[i as int]) is None);
                        return None;
                    },
                }
                i += 1;
            }
            assert(entries_of(list@)->0 =~= entries_view(entries@));
            Some(entries)
        },
        _ => None,
    }
}

/// Writes an index list.
pub fn write_entries(entries: &Vec<(Json, String)>) -> (list: Json)
    ensures
        list@ == list_of(entries_view(entries@)),
{
    let mut items: Vec<Json> = Vec::new();
    let mut i: usize = 0;
    while i < entries.len()
        invariant
            i <= entries.len(),
            items.len() == i,
            forall|j: int| 0 <= j < i ==> items[j]@ == item_of(entries_view(entries@)[j]),
        decreases entries.len() - i,
    {
        let mut pair: Vec<Json> = Vec::new();
        pair.push(entries[i].0.copy());
        pair.push(Json::String(entries[i].1.clone()));
        proof {
            lemma_array_view(pair);
            assert(items_view(pair@) =~= seq![
                entries_view(entries@)[i as int].0,
                JsonView::String(entries_view(entries@)[i as int].1),
            ]);
        }
        items.push(Json::Array(pair));
        i += 1;
    }
    proof {
        lemma_array_view(items);
        assert(items_view(items@) =~= list_of(entries_view(entries@))->Array_0);
    }
    Json::Array(items)
}

/// The entries that the documents of a listing give for `key`.
pub fn candidates_of(docs: &Vec<(String, String)>, key: &String) -> (found: Vec<(Json, String)>)
    ensures
        entries_view(found@) == candidates(crate::disk::pairs_view(docs@), key@),
{
    let ghost all = crate::disk::pairs_view(docs@);
    let mut found: Vec<(Json, String)> = Vec::new();
    let mut i: usize = 0;
    assert(all.take(0) =~= Seq::empty());
    while i < docs.len()
        invariant
            i <= docs.len(),
            all == crate::disk::pairs_view(docs@),
            entries_view(found@) =~= candidates(all.take(i as int), key@),
        decreases docs.len() - i,
    {
        assert(all.take(i + 1).drop_last() =~= all.take(i as int));
        assert(all.take(i + 1).last() == all[i as int]);
        match parse(docs[i].1.as_str()) {
            Ok(doc) => match doc.get(key) {
                Some(value) => if is_comparable(value) {
                    found.push((value.copy(), docs[i].0.clone()));
                },
                None => {},
            },
            Err(_) => {},
        }
        i += 1;
    }
    assert(all.take(i as int) =~= all);
    found
}

/// Where `value` goes into the sorted list `sorted`.
fn place_of(sorted: &Vec<(Json, String)>, value: &Json) -> (p: usize)
    ensures
        p <= sorted.len(),
        p == insert_place(entries_view(sorted@), value@),
{
    let ghost s = entries_view(sorted@);
    let mut p: usize = sorted.len();
    let mut done = false;
    assert(s.take(p as int) =~= s);
    while p > 0 && !done
        invariant
            p <= sorted.len(),
            s == entries_view(sorted@),
            insert_place(s, value@) == insert_place(s.take(p as int), value@),
            done ==> p > 0 && !(value_order(s[p - 1].0, value@) is Greater),
        decreases p + (if done { 0int } else { 1int }),
    {
        assert(s.take(p as int).drop_last() =~= s.take(p - 1));
        assert(s.take(p as int).last() == s[p - 1]);
        match value_order_of(&sorted[p - 1].0, value) {
            Order::Greater => {
                p -= 1;
            },
            _ => {
                done = true;
            },
        }
    }
    proof {
        if p > 0 {
            assert(s.take(p as int).last() == s[p - 1]);
        }
    }
    p
}

/// The entries sorted by value; entries that the order does not part keep
/// their order.
pub fn sorted(entries: &Vec<(Json, String)>) -> (out: Vec<(Json, String)>)
    ensures
        entries_view(out@) == sort_entries(entries_view(entries@)),
{
    let ghost all = entries_view(entries@);
    let mut out: Vec<(Json, String)> = Vec::new();
    let mut i: usize = 0;
    assert(all.take(0) =~= Seq::empty());
    while i < entries.len()
        invariant
            i <= entries.len(),
            all == entries_view(entries@),
            entries_view(out@) =~= sort_entries(all.take(i as int)),
        decreases entries.len() - i,
    {
        assert(all.take(i + 1).drop_last() =~= all.take(i as int));
        assert(all.take(i + 1).last() == all[i as int]);
        let p = place_of(&out, &entries[i].0);
        let ghost before = entries_view(out@);
        out.insert(p, (entries[i].0.copy(), entries[i].1.clone()));
        assert(entries_view(out@) =~= before.insert(p as int, all[i as int]));
        i += 1;
    }
    assert(all.take(i as int) =~= all);
    out
}

/// Indexes `key` anew in the fields of a collection's index.
pub fn index_key(fields: &mut Vec<(String, Json)>, docs: &Vec<(String, String)>, key: &String)
    ensures
        crate::value::members_view(final(fields)@) == reindex_key(
            crate::value::members_view(old(fields)@),
            crate::disk::pairs_view(docs@),
            key@,
        ),
{
    let found = candidates_of(docs, key);
    let entries = sorted(&found);
    if entries.len() == 0 {
        take_out(fields, key);
    } else {
        put(fields, key, write_entries(&entries));
    }
}

} // verus!
