use vstd::prelude::*;

use crate::crawl::{EntryView, crawl_spec, entry_record, is_excluded, yields_record};
use crate::index::{has_path, lemma_upsert_at, lemma_upsert_unique, paths_unique};
use crate::record::RecordView;

verus! {

/// The record yielded by the last entry of `entries` that yields one for path `p`.
pub open spec fn last_record(entries: Seq<EntryView>, skip: Seq<Seq<char>>, p: Seq<char>) -> Option<RecordView>
    decreases entries.len(),
{
    if entries.len() == 0 {
        None
    } else if yields_record(entries.last(), skip) && entries.last().path == p {
        Some(entry_record(entries.last()))
    } else {
        last_record(entries.drop_last(), skip, p)
    }
}

proof fn lemma_last_record_path(entries: Seq<EntryView>, skip: Seq<Seq<char>>, p: Seq<char>)
    ensures
        last_record(entries, skip, p) is Some ==> last_record(entries, skip, p)->0.path == p,
    decreases entries.len(),
{
    if entries.len() > 0 {
        lemma_last_record_path(entries.drop_last(), skip, p);
    }
}

proof fn lemma_last_record_at(entries: Seq<EntryView>, skip: Seq<Seq<char>>, n: int)
    requires
        0 <= n < entries.len(),
        yields_record(entries[n], skip),
        forall|m: int|
            n < m < entries.len() && yields_record(#[trigger] entries[m], skip) ==> entries[m].path
                != entries[n].path,
    ensures
        last_record(entries, skip, entries[n].path) == Some(entry_record(entries[n])),
    decreases entries.len(),
{
    if n < entries.len() - 1 {
        let d = entries.drop_last();
        assert forall|m: int| n < m < d.len() && yields_record(#[trigger] d[m], skip) implies d[m].path
            != d[n].path by {
            assert(d[m] == entries[m]);
        }
        lemma_last_record_at(d, skip, n);
        assert(d[n] == entries[n]);
    }
}

proof fn lemma_last_record_some(entries: Seq<EntryView>, skip: Seq<Seq<char>>, n: int)
    requires
        0 <= n < entries.len(),
        yields_record(entries[n], skip),
    ensures
        last_record(entries, skip, entries[n].path) is Some,
    decreases entries.len(),
{
    if n < entries.len() - 1 {
        let d = entries.drop_last();
        assert(d[n] == entries[n]);
        lemma_last_record_some(d, skip, n);
    }
}

proof fn lemma_crawl_unique(s: Seq<RecordView>, entries: Seq<EntryView>, skip: Seq<Seq<char>>)
    requires
        paths_unique(s),
    ensures
        paths_unique(crawl_spec(s, entries, skip)),
    decreases entries.len(),
{
    if entries.len() > 0 {
        lemma_crawl_unique(s, entries.drop_last(), skip);
        let c = crawl_spec(s, entries.drop_last(), skip);
        if yields_record(entries.last(), skip) {
            lemma_upsert_unique(c, entry_record(entries.last()));
        }
    }
}

proof fn lemma_crawl_holds_last(s: Seq<RecordView>, entries: Seq<EntryView>, skip: Seq<Seq<char>>, p: Seq<char>)
    requires
        paths_unique(s),
        last_record(entries, skip, p) is Some,
    ensures
        exists|i: int|
            0 <= i < crawl_spec(s, entries, skip).len() && #[trigger] crawl_spec(s, entries, skip)[i]
                == last_record(entries, skip, p)->0,
    decreases entries.len(),
{
    let d = entries.drop_last();
    let e = entries.last();
    let prev = crawl_spec(s, d, skip);
    let c = crawl_spec(s, entries, skip);
    let want = last_record(entries, skip, p)->0;
    lemma_crawl_unique(s, d, skip);
    if yields_record(e, skip) {
        let r = entry_record(e);
        if e.path == p {
            if has_path(prev, r.path) {
                let i = choose|i: int| 0 <= i < prev.len() && #[trigger] prev[i].path == r.path;
                lemma_upsert_at(prev, r, i);
                assert(c[i] == want);
            } else {
                assert(c[prev.len() as int] == want);
            }
        } else {
            lemma_crawl_holds_last(s, d, skip, p);
            lemma_last_record_path(d, skip, p);
            let i = choose|i: int| 0 <= i < prev.len() && #[trigger] prev[i] == want;
            if has_path(prev, r.path) {
                let j = choose|j: int| 0 <= j < prev.len() && #[trigger] prev[j].path == r.path;
                lemma_upsert_at(prev, r, j);
                assert(c[i] == want);
            } else {
                assert(c[i] == want);
            }
        }
    } else {
        lemma_crawl_holds_last(s, d, skip, p);
    }
}

/// Where every path that the entries yield a record for is already indexed, a crawl
/// replaces records in place: position `i` ends with the last record yielded for its path.
proof fn lemma_crawl_in_place(s: Seq<RecordView>, entries: Seq<EntryView>, skip: Seq<Seq<char>>)
    requires
        paths_unique(s),
        forall|p: Seq<char>| #[trigger] last_record(entries, skip, p) is Some ==> has_path(s, p),
    ensures
        crawl_spec(s, entries, skip).len() == s.len(),
        forall|i: int|
            0 <= i < s.len() ==> #[trigger] crawl_spec(s, entries, skip)[i] == match last_record(
                entries,
                skip,
                s[i].path,
            ) {
                Some(r) => r,
                None => s[i],
            },
    decreases entries.len(),
{
    if entries.len() > 0 {
        let d = entries.drop_last();
        let e = entries.last();
        assert forall|p: Seq<char>| #[trigger] last_record(d, skip, p) is Some implies has_path(s, p) by {
            assert(last_record(entries, skip, p) is Some);
        }
        lemma_crawl_in_place(s, d, skip);
        let prev = crawl_spec(s, d, skip);
        let c = crawl_spec(s, entries, skip);
        assert forall|i: int| 0 <= i < s.len() implies #[trigger] prev[i].path == s[i].path by {
            lemma_last_record_path(d, skip, s[i].path);
        }
        if yields_record(e, skip) {
            let r = entry_record(e);
            assert(last_record(entries, skip, e.path) is Some);
            let i = choose|i: int| 0 <= i < s.len() && #[trigger] s[i].path == e.path;
            lemma_crawl_unique(s, d, skip);
            lemma_upsert_at(prev, r, i);
            assert forall|j: int| 0 <= j < s.len() implies #[trigger] c[j] == match last_record(
                entries,
                skip,
                s[j].path,
            ) {
                Some(r) => r,
                None => s[j],
            } by {
                if j != i {
                    assert(s[j].path != s[i].path);
                }
            }
        }
    }
}

/// After a crawl, every entry that is visited and whose metadata was read has its path
/// in exactly one record.
pub proof fn law_crawl_indexes_each_path_once(
    s: Seq<RecordView>,
    entries: Seq<EntryView>,
    skip: Seq<Seq<char>>,
    n: int,
)
    requires
        paths_unique(s),
        0 <= n < entries.len(),
        yields_record(entries[n], skip),
    ensures
        has_path(crawl_spec(s, entries, skip), entries[n].path),
        forall|i: int, j: int|
            0 <= i < crawl_spec(s, entries, skip).len() && 0 <= j < crawl_spec(s, entries, skip).len()
                && #[trigger] crawl_spec(s, entries, skip)[i].path == entries[n].path
                && #[trigger] crawl_spec(s, entries, skip)[j].path == entries[n].path ==> i == j,
{
    let p = entries[n].path;
    lemma_last_record_some(entries, skip, n);
    lemma_last_record_path(entries, skip, p);
    lemma_crawl_holds_last(s, entries, skip, p);
    lemma_crawl_unique(s, entries, skip);
    let c = crawl_spec(s, entries, skip);
    let i = choose|i: int| 0 <= i < c.len() && #[trigger] c[i] == last_record(entries, skip, p)->0;
    assert(c[i].path == p);
}

/// Crawling the same entries a second time leaves the index as the first crawl left it.
pub proof fn law_crawl_idempotent(s: Seq<RecordView>, entries: Seq<EntryView>, skip: Seq<Seq<char>>)
    requires
        paths_unique(s),
    ensures
        crawl_spec(crawl_spec(s, entries, skip), entries, skip) == crawl_spec(s, entries, skip),
{
    let a = crawl_spec(s, entries, skip);
    lemma_crawl_unique(s, entries, skip);
    assert forall|p: Seq<char>| #[trigger] last_record(entries, skip, p) is Some implies has_path(a, p) by {
        lemma_crawl_holds_last(s, entries, skip, p);
        lemma_last_record_path(entries, skip, p);
        let i = choose|i: int| 0 <= i < a.len() && #[trigger] a[i] == last_record(entries, skip, p)->0;
        assert(a[i].path == p);
    }
    lemma_crawl_in_place(a, entries, skip);
    let b = crawl_spec(a, entries, skip);
    assert forall|i: int| 0 <= i < a.len() implies #[trigger] b[i] == a[i] by {
        let p = a[i].path;
        if last_record(entries, skip, p) is Some {
            lemma_crawl_holds_last(s, entries, skip, p);
            lemma_last_record_path(entries, skip, p);
            let j = choose|j: int| 0 <= j < a.len() && #[trigger] a[j] == last_record(entries, skip, p)->0;
            assert(a[j].path == a[i].path);
        }
    }
    assert(b =~= a);
}

/// When a second crawl meets a path again, the record it stores is the one its last
/// entry for that path yields, whatever the first crawl stored, and it is the only one.
pub proof fn law_crawl_overwrites(
    s: Seq<RecordView>,
    first: Seq<EntryView>,
    second: Seq<EntryView>,
    skip: Seq<Seq<char>>,
    n: int,
)
    requires
        paths_unique(s),
        0 <= n < second.len(),
        yields_record(second[n], skip),
        forall|m: int|
            n < m < second.len() && yields_record(#[trigger] second[m], skip) ==> second[m].path
                != second[n].path,
    ensures
        ({
            let c = crawl_spec(crawl_spec(s, first, skip), second, skip);
            &&& exists|i: int| 0 <= i < c.len() && #[trigger] c[i] == entry_record(second[n])
            &&& forall|i: int, j: int|
                0 <= i < c.len() && 0 <= j < c.len() && #[trigger] c[i].path == second[n].path
                    && #[trigger] c[j].path == second[n].path ==> i == j
        }),
{
    let a = crawl_spec(s, first, skip);
    lemma_crawl_unique(s, first, skip);
    lemma_crawl_unique(a, second, skip);
    lemma_last_record_at(second, skip, n);
    lemma_crawl_holds_last(a, second, skip, second[n].path);
}

/// A crawl records no path that holds an excluded fragment, where the index held none.
pub proof fn law_crawl_skips_excluded(s: Seq<RecordView>, entries: Seq<EntryView>, skip: Seq<Seq<char>>)
    requires
        forall|i: int| 0 <= i < s.len() ==> !is_excluded(#[trigger] s[i].path, skip),
    ensures
        forall|i: int|
            0 <= i < crawl_spec(s, entries, skip).len() ==> !is_excluded(
                #[trigger] crawl_spec(s, entries, skip)[i].path,
                skip,
            ),
    decreases entries.len(),
{
    if entries.len() > 0 {
        let d = entries.drop_last();
        law_crawl_skips_excluded(s, d, skip);
        let prev = crawl_spec(s, d, skip);
        let c = crawl_spec(s, entries, skip);
        let e = entries.last();
        if yields_record(e, skip) {
            let r = entry_record(e);
            assert forall|i: int| 0 <= i < c.len() implies !is_excluded(#[trigger] c[i].path, skip) by {
                if has_path(prev, r.path) {
                    let j = choose|j: int| 0 <= j < prev.len() && #[trigger] prev[j].path == r.path;
                    if i != j {
                        assert(c[i] == prev[i]);
                    }
                } else if i < prev.len() {
                    assert(c[i] == prev[i]);
                }
            }
        }
    }
}

/// An entry whose metadata could not be read leaves no trace: the crawl ends as if the
/// entry had not been met, every other entry being fed as before.
pub proof fn law_crawl_unreadable_entry_skipped(
    s: Seq<RecordView>,
    entries: Seq<EntryView>,
    skip: Seq<Seq<char>>,
    b: int,
)
    requires
        0 <= b < entries.len(),
        entries[b].stat is None,
    ensures
        crawl_spec(s, entries, skip) == crawl_spec(s, entries.remove(b), skip),
    decreases entries.len(),
{
    let d = entries.drop_last();
    if b == entries.len() - 1 {
        assert(entries.remove(b) =~= d);
    } else {
        assert(d[b] == entries[b]);
        law_crawl_unreadable_entry_skipped(s, d, skip, b);
        let t = entries.remove(b);
        assert(t.drop_last() =~= d.remove(b));
        assert(t.last() == entries.last());
    }
}

} // verus!
