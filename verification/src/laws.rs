//! What holds of the store as a whole.

use vstd::prelude::*;
use vstd::seq_lib::*;
use crate::collection::{Collection, CollectionView};
use crate::disk::{lemma_with_doc, lemma_without_doc, DiskView};
use crate::document::{merged, Document, DocumentView};
use crate::error::ErrorView;
use crate::index::{
    candidate, candidates, entries_of, insert_place, key_entries, lemma_list_round_trip, list_of,
    reindex_key, reindex_keys, sort_entries, ListingView,
};
use crate::json::{double_bits, json_parse, json_text};
use crate::query::{
    below, common, pick, satisfies, selects, sorted_for, Condition, EntryView,
};
use crate::value::{
    drop_member, put_member, lemma_lex_asymmetric, lemma_lex_transitive, lemma_order_flip, lookup, value_order, JsonView, MembersView,
};

verus! {

/// The values of a list never go down from one entry to the next.
pub open spec fn non_decreasing(s: Seq<EntryView>) -> bool {
    forall|i: int, j: int|
        0 <= i && j == i + 1 && j < s.len() ==> !(value_order(
            (#[trigger] s[i]).0,
            (#[trigger] s[j]).0,
        ) is Greater)
}

/// The place where a value goes into a list lies in the list; the entry
/// before it is not greater than the value, and every entry from it on is.
pub proof fn lemma_insert_place(s: Seq<EntryView>, value: JsonView)
    ensures
        0 <= insert_place(s, value) <= s.len(),
        insert_place(s, value) > 0 ==> !(value_order(s[insert_place(s, value) - 1].0, value)
            is Greater),
        forall|i: int|
            insert_place(s, value) <= i < s.len() ==> value_order((#[trigger] s[i]).0, value)
                is Greater,
    decreases s.len(),
{
    if s.len() > 0 && value_order(s.last().0, value) is Greater {
        lemma_insert_place(s.drop_last(), value);
        assert forall|i: int| insert_place(s, value) <= i < s.len() implies value_order(
            (#[trigger] s[i]).0,
            value,
        ) is Greater by {
            if i < s.len() - 1 {
                assert(s.drop_last()[i] == s[i]);
            }
        }
    }
}

/// Index sortedness: a list that the index builds never goes down in value.
pub proof fn law_sorted(s: Seq<EntryView>)
    ensures
        non_decreasing(sort_entries(s)),
    decreases s.len(),
{
    if s.len() > 0 {
        let rest = sort_entries(s.drop_last());
        let e = s.last();
        let p = insert_place(rest, e.0);
        law_sorted(s.drop_last());
        lemma_insert_place(rest, e.0);
        let t = rest.insert(p, e);
        assert forall|i: int, j: int| 0 <= i && j == i + 1 && j < t.len() implies !(value_order(
            (#[trigger] t[i]).0,
            (#[trigger] t[j]).0,
        ) is Greater) by {
            if j < p {
                assert(t[i] == rest[i] && t[j] == rest[j]);
            } else if j == p {
                assert(t[i] == rest[p - 1]);
            } else if i == p {
                assert(t[j] == rest[p]);
                lemma_order_flip(rest[p].0, e.0);
            } else {
                assert(t[i] == rest[i - 1] && t[j] == rest[j - 1]);
            }
        }
    }
}

/// Sorting keeps the entries: each entry is in the sorted list as often as
/// it was in the list.
pub proof fn lemma_sort_keeps(s: Seq<EntryView>)
    ensures
        sort_entries(s).to_multiset() == s.to_multiset(),
        sort_entries(s).len() == s.len(),
    decreases s.len(),
{
    if s.len() == 0 {
        assert(s =~= Seq::empty());
    } else {
        let rest = sort_entries(s.drop_last());
        lemma_sort_keeps(s.drop_last());
        lemma_insert_place(rest, s.last().0);
        to_multiset_insert(rest, insert_place(rest, s.last().0), s.last());
        to_multiset_build(s.drop_last(), s.last());
        assert(s.drop_last().push(s.last()) =~= s);
        let p = insert_place(rest, s.last().0);
        assert(sort_entries(s) == rest.insert(p, s.last()));
        assert(rest.insert(p, s.last()).to_multiset() == rest.to_multiset().insert(s.last()));
        assert(s.drop_last().push(s.last()).to_multiset() == s.drop_last().to_multiset().insert(
            s.last(),
        ));
    }
}

/// Every entry among the candidates comes from a document of the listing,
/// and every document of the listing that gives an entry has it among them.
pub proof fn lemma_candidates(docs: ListingView, key: Seq<char>)
    ensures
        forall|e: EntryView| #[trigger]
            candidates(docs, key).contains(e) <==> exists|i: int|
                0 <= i < docs.len() && #[trigger] candidate(docs[i].0, docs[i].1, key) == Some(e),
    decreases docs.len(),
{
    if docs.len() == 0 {
    } else {
        let front = docs.drop_last();
        let rest = candidates(front, key);
        let last = candidate(docs.last().0, docs.last().1, key);
        lemma_candidates(front, key);
        assert forall|e: EntryView| #[trigger]
            candidates(docs, key).contains(e) <==> exists|i: int|
                0 <= i < docs.len() && #[trigger] candidate(docs[i].0, docs[i].1, key) == Some(
                    e,
                ) by {
            let all = candidates(docs, key);
            if all.contains(e) {
                let k = choose|k: int| 0 <= k < all.len() && all[k] == e;
                if k < rest.len() {
                    assert(rest[k] == e);
                    assert(rest.contains(e));
                    let i = choose|i: int|
                        0 <= i < front.len() && #[trigger] candidate(front[i].0, front[i].1, key)
                            == Some(e);
                    assert(docs[i] == front[i]);
                    assert(candidate(docs[i].0, docs[i].1, key) == Some(e));
                } else {
                    let n = docs.len() - 1;
                    assert(candidate(docs[n].0, docs[n].1, key) == Some(e));
                }
            }
            if exists|i: int|
                0 <= i < docs.len() && #[trigger] candidate(docs[i].0, docs[i].1, key) == Some(e) {
                let i = choose|i: int|
                    0 <= i < docs.len() && #[trigger] candidate(docs[i].0, docs[i].1, key) == Some(
                        e,
                    );
                if i < front.len() {
                    assert(front[i] == docs[i]);
                    assert(candidate(front[i].0, front[i].1, key) == Some(e));
                    assert(rest.contains(e));
                    let k = choose|k: int| 0 <= k < rest.len() && rest[k] == e;
                    assert(all[k] == e);
                } else {
                    assert(all[all.len() - 1] == e);
                }
            }
        }
    }
}

/// Index completeness: every document of the collection that has under
/// `key` a value that can be ordered has its entry in the list of `key`.
pub proof fn law_complete(docs: ListingView, key: Seq<char>, i: int)
    requires
        0 <= i < docs.len(),
        candidate(docs[i].0, docs[i].1, key) is Some,
    ensures
        key_entries(docs, key).contains(candidate(docs[i].0, docs[i].1, key)->0),
{
    let e = candidate(docs[i].0, docs[i].1, key)->0;
    lemma_candidates(docs, key);
    assert(candidates(docs, key).contains(e));
    lemma_sort_keeps(candidates(docs, key));
    to_multiset_contains(candidates(docs, key), e);
    to_multiset_contains(key_entries(docs, key), e);
}

/// Index soundness: every entry in the list of `key` is that of a document
/// of the collection, which has the entry's value under `key`.
pub proof fn law_sound(docs: ListingView, key: Seq<char>, e: EntryView)
    requires
        key_entries(docs, key).contains(e),
    ensures
        exists|i: int|
            0 <= i < docs.len() && #[trigger] candidate(docs[i].0, docs[i].1, key) == Some(e),
{
    lemma_candidates(docs, key);
    lemma_sort_keeps(candidates(docs, key));
    to_multiset_contains(candidates(docs, key), e);
    to_multiset_contains(key_entries(docs, key), e);
}

/// The list of `key` has as many entries as the documents give, and each as
/// often: no entry is written twice for one document, and none is lost.
pub proof fn law_each_once(docs: ListingView, key: Seq<char>)
    ensures
        key_entries(docs, key).to_multiset() == candidates(docs, key).to_multiset(),
        key_entries(docs, key).len() == candidates(docs, key).len(),
{
    lemma_sort_keeps(candidates(docs, key));
}

/// The entries that the documents of a listing give bear names of the
/// listing, so where no two documents of the listing have one name, no two
/// of the entries are the same.
pub proof fn lemma_candidates_once(docs: ListingView, key: Seq<char>)
    requires
        forall|i: int, j: int| 0 <= i < j < docs.len() ==> (#[trigger] docs[i]).0 != (#[trigger] docs[j]).0,
    ensures
        candidates(docs, key).no_duplicates(),
    decreases docs.len(),
{
    if docs.len() > 0 {
        let front = docs.drop_last();
        let rest = candidates(front, key);
        let all = candidates(docs, key);
        assert forall|i: int, j: int| 0 <= i < j < front.len() implies (#[trigger] front[i]).0 != (
        #[trigger] front[j]).0 by {
            assert(front[i] == docs[i] && front[j] == docs[j]);
        }
        lemma_candidates_once(front, key);
        lemma_candidates(front, key);
        if all.len() > rest.len() {
            let e = all[all.len() - 1];
            if rest.contains(e) {
                let i = choose|i: int|
                    0 <= i < front.len() && #[trigger] candidate(front[i].0, front[i].1, key)
                        == Some(e);
                assert(front[i] == docs[i]);
                assert(docs[i].0 != docs[docs.len() - 1].0);
            }
            assert forall|i: int, j: int| 0 <= i < all.len() && 0 <= j < all.len() && i != j implies all[i]
                != all[j] by {
                if i < rest.len() && j < rest.len() {
                    assert(rest[i] == all[i] && rest[j] == all[j]);
                } else if i < rest.len() {
                    assert(rest[i] == all[i]);
                } else if j < rest.len() {
                    assert(rest[j] == all[j]);
                }
            }
        }
    }
}

/// Where no two documents of a collection have one name, no entry stands
/// twice in the list of a field: every document that gives an entry has it
/// there exactly once.
pub proof fn law_once(docs: ListingView, key: Seq<char>)
    requires
        forall|i: int, j: int| 0 <= i < j < docs.len() ==> (#[trigger] docs[i]).0 != (#[trigger] docs[j]).0,
    ensures
        key_entries(docs, key).no_duplicates(),
{
    let found = candidates(docs, key);
    lemma_candidates_once(docs, key);
    lemma_sort_keeps(found);
    found.lemma_multiset_has_no_duplicates();
    key_entries(docs, key).lemma_multiset_has_no_duplicates_conv();
}

/// In an image without duplicates no two documents of a directory's listing
/// have one name.
pub proof fn law_listing_names(disk: DiskView, dir: Seq<char>)
    requires
        disk.unique(),
    ensures
        forall|i: int, j: int|
            0 <= i < j < disk.listing(dir).len() ==> (#[trigger] disk.listing(dir)[i]).0 != (
            #[trigger] disk.listing(dir)[j]).0,
{
    let docs = disk.docs;
    let listing = crate::disk::list_docs(docs, dir);
    lemma_listing_from(docs, dir);
    assert forall|i: int, j: int| 0 <= i < j < listing.len() implies (#[trigger] listing[i]).0 != (
    #[trigger] listing[j]).0 by {
        assert(has_file(docs, dir, i));
        assert(has_file(docs, dir, j));
        let a = choose|a: int| is_file_of(docs, dir, i, a);
        let b = choose|b: int| is_file_of(docs, dir, j, b);
        if a < b {
            assert(!(docs[a].0 == docs[b].0 && docs[a].1 == docs[b].1));
        } else if b < a {
            assert(!(docs[b].0 == docs[a].0 && docs[b].1 == docs[a].1));
        }
    }
}

/// Whether the file at `k` is the one that stands at `i` in the listing of
/// `dir`: it is a file of `dir` with `i` files of `dir` before it.
pub open spec fn is_file_of(docs: Seq<crate::disk::DocView>, dir: Seq<char>, i: int, k: int) -> bool {
    &&& 0 <= k < docs.len()
    &&& docs[k].0 == dir
    &&& crate::disk::list_docs(docs.take(k), dir).len() == i
    &&& 0 <= i < crate::disk::list_docs(docs, dir).len()
    &&& crate::disk::list_docs(docs, dir)[i] == (docs[k].1, docs[k].2)
}

/// Whether the entry at `i` of the listing of `dir` stands for a file.
pub open spec fn has_file(docs: Seq<crate::disk::DocView>, dir: Seq<char>, i: int) -> bool {
    exists|k: int| is_file_of(docs, dir, i, k)
}

/// Every entry of a directory's listing stands for a file of the directory.
pub proof fn lemma_listing_from(docs: Seq<crate::disk::DocView>, dir: Seq<char>)
    ensures
        forall|i: int|
            0 <= i < crate::disk::list_docs(docs, dir).len() ==> #[trigger] has_file(docs, dir, i),
    decreases docs.len(),
{
    let listing = crate::disk::list_docs(docs, dir);
    if docs.len() > 0 {
        let front = docs.drop_last();
        let rest = crate::disk::list_docs(front, dir);
        lemma_listing_from(front, dir);
        assert forall|i: int| 0 <= i < listing.len() implies #[trigger] has_file(docs, dir, i) by {
            if i < rest.len() {
                assert(has_file(front, dir, i));
                let k = choose|k: int| is_file_of(front, dir, i, k);
                assert(front.take(k) =~= docs.take(k));
                assert(docs[k] == front[k]);
                assert(is_file_of(docs, dir, i, k));
            } else {
                let k = docs.len() - 1;
                assert(docs.take(k) =~= front);
                assert(is_file_of(docs, dir, i, k));
            }
        }
    }
}

/// After a field was indexed anew, the index has for it the list of the
/// entries that the documents give, which reads back as those entries, and
/// has for every other field what it had.
pub proof fn law_reindexed(fields: MembersView, docs: ListingView, key: Seq<char>, other: Seq<char>)
    ensures
        key_entries(docs, key).len() > 0 ==> lookup(reindex_key(fields, docs, key), key) == Some(
            list_of(key_entries(docs, key)),
        ),
        entries_of(list_of(key_entries(docs, key))) == Some(key_entries(docs, key)),
        other != key ==> lookup(reindex_key(fields, docs, key), other) == lookup(fields, other),
{
    let entries = key_entries(docs, key);
    lemma_list_round_trip(entries);
    crate::value::lemma_lookup_put(fields, key, list_of(entries), key);
    crate::value::lemma_lookup_put(fields, key, list_of(entries), other);
    if other != key {
        crate::value::lemma_lookup_drop(fields, key, other);
    }
}

/// Every list among the fields that reads as entries never goes down in value.
pub open spec fn lists_sorted(fields: MembersView) -> bool {
    forall|i: int|
        0 <= i < fields.len() ==> match entries_of((#[trigger] fields[i]).1) {
            Some(entries) => non_decreasing(entries),
            None => true,
        }
}

/// Every member after a put is the member put or one of the members before.
pub proof fn lemma_put_keeps(members: MembersView, key: Seq<char>, value: JsonView)
    ensures
        forall|j: int|
            0 <= j < put_member(members, key, value).len() ==> (#[trigger] put_member(
                members,
                key,
                value,
            )[j]) == (key, value) || members.contains(put_member(members, key, value)[j]),
    decreases members.len(),
{
    let after = put_member(members, key, value);
    if members.len() == 0 {
    } else if members[0].0 == key {
        assert forall|j: int| 0 <= j < after.len() implies (#[trigger] after[j]) == (key, value)
            || members.contains(after[j]) by {
            if j > 0 {
                assert(members[j] == after[j]);
            }
        }
    } else {
        let rest = members.drop_first();
        lemma_put_keeps(rest, key, value);
        let tail = put_member(rest, key, value);
        assert forall|j: int| 0 <= j < after.len() implies (#[trigger] after[j]) == (key, value)
            || members.contains(after[j]) by {
            if j == 0 {
                assert(members[0] == after[0]);
            } else {
                assert(after[j] == tail[j - 1]);
                if tail[j - 1] != (key, value) {
                    let t = choose|t: int| 0 <= t < rest.len() && rest[t] == tail[j - 1];
                    assert(members[t + 1] == after[j]);
                }
            }
        }
    }
}

/// Every member after a drop is one of the members before.
pub proof fn lemma_drop_keeps(members: MembersView, key: Seq<char>)
    ensures
        forall|j: int|
            0 <= j < drop_member(members, key).len() ==> members.contains(
                #[trigger] drop_member(members, key)[j],
            ),
    decreases members.len(),
{
    let after = drop_member(members, key);
    if members.len() == 0 {
    } else if members[0].0 == key {
        assert forall|j: int| 0 <= j < after.len() implies members.contains(#[trigger] after[j]) by {
            assert(members[j + 1] == after[j]);
        }
    } else {
        let rest = members.drop_first();
        lemma_drop_keeps(rest, key);
        let tail = drop_member(rest, key);
        assert forall|j: int| 0 <= j < after.len() implies members.contains(#[trigger] after[j]) by {
            if j == 0 {
                assert(members[0] == after[0]);
            } else {
                assert(after[j] == tail[j - 1]);
                let t = choose|t: int| 0 <= t < rest.len() && rest[t] == tail[j - 1];
                assert(members[t + 1] == after[j]);
            }
        }
    }
}

/// Index sortedness is kept: where every list of a collection's index never
/// goes down in value, the same holds after any of its fields were indexed
/// anew.
pub proof fn law_stays_sorted(fields: MembersView, docs: ListingView, keys: Seq<Seq<char>>)
    requires
        lists_sorted(fields),
    ensures
        lists_sorted(reindex_keys(fields, docs, keys)),
    decreases keys.len(),
{
    if keys.len() > 0 {
        let before = reindex_keys(fields, docs, keys.drop_last());
        let key = keys.last();
        let entries = key_entries(docs, key);
        let after = reindex_key(before, docs, key);
        law_stays_sorted(fields, docs, keys.drop_last());
        law_sorted(candidates(docs, key));
        lemma_list_round_trip(entries);
        lemma_put_keeps(before, key, list_of(entries));
        lemma_drop_keeps(before, key);
        assert forall|i: int| 0 <= i < after.len() implies match entries_of((#[trigger] after[i]).1) {
            Some(e) => non_decreasing(e),
            None => true,
        } by {
            if after[i] != (key, list_of(entries)) {
                let t = choose|t: int| 0 <= t < before.len() && before[t] == after[i];
                assert(before[t].1 == after[i].1);
            }
        }
    }
}

/// What a read makes of the text of a document's file.
pub open spec fn read_of(text: Seq<char>) -> Result<Option<JsonView>, ErrorView> {
    match json_parse(text) {
        Some(value) => Ok(Some(value)),
        None => Err(ErrorView::Malformed),
    }
}

/// Lock exclusivity: no write to a document or to the index touches the lock
/// file, so a handle that found its identifier there when it took the lock
/// finds it there until it gives the lock back.
pub proof fn law_lock_untouched(document: DocumentView, data: JsonView, index: bool, disk: DiskView)
    ensures
        Collection::made(document.collection, disk).0.lock == disk.lock,
        Collection::indexed(document.collection, data, disk).0.lock == disk.lock,
        Document::written(document, data, index, disk).0.lock == disk.lock,
        Document::updated(document, data, disk).0.lock == disk.lock,
        Document::deleted(document, disk).0.lock == disk.lock,
{
}

/// Conjunction: the identifiers that a narrowed query keeps are those that
/// both searches found, and none of them twice.
pub proof fn law_conjunction(fresh: Seq<Seq<char>>, current: Seq<Seq<char>>)
    ensures
        forall|id: Seq<char>| #[trigger]
            common(fresh, current).contains(id) <==> fresh.contains(id) && current.contains(id),
        common(fresh, current).no_duplicates(),
    decreases fresh.len(),
{
    if fresh.len() > 0 {
        let front = fresh.drop_last();
        let last = fresh.last();
        let rest = common(front, current);
        let all = common(fresh, current);
        law_conjunction(front, current);
        assert forall|id: Seq<char>| #[trigger]
            all.contains(id) <==> fresh.contains(id) && current.contains(id) by {
            if all.contains(id) {
                let k = choose|k: int| 0 <= k < all.len() && all[k] == id;
                if k < rest.len() {
                    assert(rest[k] == id);
                    assert(rest.contains(id));
                    let j = choose|j: int| 0 <= j < front.len() && front[j] == id;
                    assert(fresh[j] == id);
                } else {
                    assert(fresh[fresh.len() - 1] == id);
                }
            }
            if fresh.contains(id) && current.contains(id) {
                let j = choose|j: int| 0 <= j < fresh.len() && fresh[j] == id;
                if j < front.len() {
                    assert(front[j] == id);
                    assert(rest.contains(id));
                    let k = choose|k: int| 0 <= k < rest.len() && rest[k] == id;
                    assert(all[k] == id);
                } else {
                    if rest.contains(id) {
                        let k = choose|k: int| 0 <= k < rest.len() && rest[k] == id;
                        assert(all[k] == id);
                    } else {
                        assert(all[all.len() - 1] == id);
                    }
                }
            }
        }
        assert forall|i: int, j: int| 0 <= i < all.len() && 0 <= j < all.len() && i != j implies all[i]
            != all[j] by {
            if i < rest.len() && j < rest.len() {
            } else if i < rest.len() {
                assert(rest[i] == all[i]);
                assert(rest.contains(all[i]));
            } else if j < rest.len() {
                assert(rest[j] == all[j]);
                assert(rest.contains(all[j]));
            }
        }
    }
}

/// Insert, then get: the document that `add` wrote is read back as what
/// `serde_json` reads from the text that it printed for the payload; so as
/// the payload itself, where that text reads back as it.
pub proof fn law_insert_then_get(collection: CollectionView, data: JsonView, id: Seq<char>, disk: DiskView)
    requires
        disk.unique(),
        Collection::added(collection, data, id, disk).1 is Ok,
    ensures
        json_text(data) is Some,
        Document::read(
            Document::opened(id, collection, Collection::added(collection, data, id, disk).0),
            Collection::added(collection, data, id, disk).0,
        ) == read_of(json_text(data)->0),
        json_parse(json_text(data)->0) == Some(data) ==> Document::read(
            Document::opened(id, collection, Collection::added(collection, data, id, disk).0),
            Collection::added(collection, data, id, disk).0,
        ) == Ok::<Option<JsonView>, ErrorView>(Some(data)),
{
    let made = Collection::made(collection, disk).0;
    let handle = Document::opened(id, collection, made);
    let again = Collection::made(handle.collection, made).0;
    let text = json_text(data)->0;
    assert(again.docs == disk.docs);
    lemma_with_doc(again, collection.path, id, text);
    let stored = again.with_doc(collection.path, id, text);
    let after = Collection::added(collection, data, id, disk).0;
    assert(after.docs == stored.docs);
    lemma_same_docs(after, stored, collection.path, id);
}

/// Two images with the same document files have the same documents.
pub proof fn lemma_same_docs(a: DiskView, b: DiskView, dir: Seq<char>, name: Seq<char>)
    requires
        a.docs == b.docs,
    ensures
        a.has_doc(dir, name) == b.has_doc(dir, name),
        a.text_of(dir, name) == b.text_of(dir, name),
        a.unique() == b.unique(),
        a.listing(dir) == b.listing(dir),
{
}

/// Update, then get: the document is read back as what `serde_json` reads
/// from the text that it printed for the shallow merge of what the document
/// held and the partial payload.
pub proof fn law_update_then_get(document: DocumentView, partial: JsonView, disk: DiskView)
    requires
        disk.unique(),
        document.exist,
        Document::updated(document, partial, disk).1 is Ok,
    ensures
        Document::read(document, disk) matches Ok(Some(JsonView::Object(content))) && partial
            matches JsonView::Object(members) && json_text(
            JsonView::Object(merged(content, members)),
        ) matches Some(text) && Document::read(
            document,
            Document::updated(document, partial, disk).0,
        ) == read_of(text),
{
    let content = Document::read(document, disk)->Ok_0->0->Object_0;
    let members = partial->Object_0;
    let whole = JsonView::Object(merged(content, members));
    let text = json_text(whole)->0;
    let made = Collection::made(document.collection, disk).0;
    assert(made.docs == disk.docs);
    lemma_with_doc(made, document.collection.path, document.name, text);
    let stored = made.with_doc(document.collection.path, document.name, text);
    let after = Document::updated(document, partial, disk).0;
    assert(after.docs == stored.docs);
    lemma_same_docs(after, stored, document.collection.path, document.name);
}

/// Delete, then get: a handle made after a document was deleted sees no
/// file, and reads nothing.
pub proof fn law_delete_then_get(document: DocumentView, disk: DiskView)
    requires
        disk.unique(),
        Document::deleted(document, disk).1 is Ok,
    ensures
        Document::read(
            Document::opened(
                document.name,
                document.collection,
                Document::deleted(document, disk).0,
            ),
            Document::deleted(document, disk).0,
        ) == Ok::<Option<JsonView>, ErrorView>(None),
{
    let gone = disk.without_doc(document.collection.path, document.name);
    lemma_without_doc(disk, document.collection.path, document.name);
    let after = Document::deleted(document, disk).0;
    assert(after.docs == gone.docs);
    lemma_same_docs(after, gone, document.collection.path, document.name);
}

/// The value that the members of `partial` give for `key`: that of the last
/// of them with that key.
pub open spec fn last_with(partial: MembersView, key: Seq<char>) -> Option<JsonView>
    decreases partial.len(),
{
    if partial.len() == 0 {
        None
    } else if partial.last().0 == key {
        Some(partial.last().1)
    } else {
        last_with(partial.drop_last(), key)
    }
}

/// The shallow merge: a key of the partial payload has the value that the
/// payload gives it, the last where it gives several; every other key has
/// what the document had.
pub proof fn law_shallow_merge(content: MembersView, partial: MembersView, key: Seq<char>)
    ensures
        lookup(merged(content, partial), key) == match last_with(partial, key) {
            Some(value) => Some(value),
            None => lookup(content, key),
        },
    decreases partial.len(),
{
    if partial.len() > 0 {
        law_shallow_merge(content, partial.drop_last(), key);
        crate::value::lemma_lookup_put(
            merged(content, partial.drop_last()),
            partial.last().0,
            partial.last().1,
            key,
        );
    }
}

/// What the condition picks from a list are the identifiers of the entries
/// whose value meets it.
pub proof fn lemma_pick(s: Seq<EntryView>, cond: Condition, val: JsonView)
    ensures
        forall|id: Seq<char>| #[trigger]
            pick(s, cond, val).contains(id) <==> exists|i: int|
                0 <= i < s.len() && (#[trigger] s[i]).1 == id && satisfies(cond, s[i].0, val),
    decreases s.len(),
{
    if s.len() > 0 {
        let front = s.drop_last();
        let rest = pick(front, cond, val);
        let all = pick(s, cond, val);
        lemma_pick(front, cond, val);
        assert forall|id: Seq<char>| #[trigger]
            all.contains(id) <==> exists|i: int|
                0 <= i < s.len() && (#[trigger] s[i]).1 == id && satisfies(cond, s[i].0, val) by {
            if all.contains(id) {
                let k = choose|k: int| 0 <= k < all.len() && all[k] == id;
                if k < rest.len() {
                    assert(rest[k] == id);
                    assert(rest.contains(id));
                    let i = choose|i: int|
                        0 <= i < front.len() && (#[trigger] front[i]).1 == id && satisfies(
                            cond,
                            front[i].0,
                            val,
                        );
                    assert(s[i] == front[i]);
                } else {
                    assert(s[s.len() - 1].1 == id);
                }
            }
            if exists|i: int|
                0 <= i < s.len() && (#[trigger] s[i]).1 == id && satisfies(cond, s[i].0, val) {
                let i = choose|i: int|
                    0 <= i < s.len() && (#[trigger] s[i]).1 == id && satisfies(cond, s[i].0, val);
                if i < front.len() {
                    assert(front[i] == s[i]);
                    assert(rest.contains(id));
                    let k = choose|k: int| 0 <= k < rest.len() && rest[k] == id;
                    assert(all[k] == id);
                } else {
                    assert(all[all.len() - 1] == id);
                }
            }
        }
    }
}

/// Query correctness: from an index list that is sorted as far as the
/// query's value can tell, a query takes exactly the identifiers of the
/// entries whose value meets its condition.
pub proof fn law_query(s: Seq<EntryView>, cond: Condition, val: JsonView, ids: Seq<Seq<char>>)
    requires
        sorted_for(s, val),
        selects(s, cond, val, ids),
    ensures
        ids == pick(s, cond, val),
        forall|id: Seq<char>| #[trigger]
            ids.contains(id) <==> exists|i: int|
                0 <= i < s.len() && (#[trigger] s[i]).1 == id && satisfies(cond, s[i].0, val),
{
    lemma_pick(s, cond, val);
}

/// The kind of a scalar that the order can place: 1 for a boolean, 2 for a
/// number that has a double, 3 for a string, and 0 for every other value.
pub open spec fn kind_of(value: JsonView) -> int {
    match value {
        JsonView::Bool(_) => 1,
        JsonView::Number(n) => if double_bits(n) is Some {
            2
        } else {
            0
        },
        JsonView::String(_) => 3,
        _ => 0,
    }
}

/// The values of the list are scalars of one kind, that of `val`.
pub open spec fn one_kind(s: Seq<EntryView>, val: JsonView) -> bool {
    kind_of(val) != 0 && forall|i: int| 0 <= i < s.len() ==> kind_of((#[trigger] s[i]).0) == kind_of(val)
}

/// Among scalars of one kind the order is transitive: what is not greater
/// than a value that is below a third is below the third.
pub proof fn lemma_order_transitive(a: JsonView, b: JsonView, c: JsonView, strict: bool)
    requires
        kind_of(a) != 0,
        kind_of(a) == kind_of(b),
        kind_of(b) == kind_of(c),
        !(value_order(a, b) is Greater),
        below(b, c, strict),
    ensures
        below(a, c, strict),
{
    match (a, b, c) {
        (JsonView::String(x), JsonView::String(y), JsonView::String(z)) => {
            lemma_lex_asymmetric(x, x);
            lemma_lex_asymmetric(x, z);
            lemma_lex_asymmetric(y, z);
            if x != y {
                crate::value::lemma_lex_total(x, y);
                lemma_lex_asymmetric(x, y);
            }
            if y != z {
                crate::value::lemma_lex_total(y, z);
            }
            if x != y && y != z {
                lemma_lex_transitive(x, y, z);
            }
        },
        _ => {},
    }
}

/// In a list of scalars of one kind whose values never go down, no entry is
/// greater than a later one.
pub proof fn lemma_pairwise(s: Seq<EntryView>, val: JsonView, i: int, j: int)
    requires
        non_decreasing(s),
        one_kind(s, val),
        0 <= i <= j < s.len(),
    ensures
        !(value_order(s[i].0, s[j].0) is Greater),
    decreases j - i,
{
    if i == j {
        match s[i].0 {
            JsonView::String(x) => {
                lemma_lex_asymmetric(x, x);
            },
            _ => {},
        }
    } else {
        lemma_pairwise(s, val, i, j - 1);
        assert(!(value_order(s[j - 1].0, s[j].0) is Greater));
        lemma_order_transitive(s[i].0, s[j - 1].0, s[j].0, false);
    }
}

/// Query correctness holds of every index list of one kind: a list of
/// scalars of the kind of `val` whose values never go down is sorted as far
/// as `val` can tell, so a query against `val` finds exactly the entries
/// that meet its condition.
pub proof fn law_one_kind_sorted(s: Seq<EntryView>, val: JsonView)
    requires
        non_decreasing(s),
        one_kind(s, val),
    ensures
        sorted_for(s, val),
{
    assert forall|i: int, j: int|
        0 <= i <= j < s.len() && below((#[trigger] s[j]).0, val, true) implies below(
        (#[trigger] s[i]).0,
        val,
        true,
    ) by {
        lemma_pairwise(s, val, i, j);
        lemma_order_transitive(s[i].0, s[j].0, val, true);
    }
    assert forall|i: int, j: int|
        0 <= i <= j < s.len() && below((#[trigger] s[j]).0, val, false) implies below(
        (#[trigger] s[i]).0,
        val,
        false,
    ) by {
        lemma_pairwise(s, val, i, j);
        lemma_order_transitive(s[i].0, s[j].0, val, false);
    }
}

} // verus!
