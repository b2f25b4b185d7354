use vstd::prelude::*;

use crate::paths::{contains, contains_fragment, is_child_path, is_direct_child, is_prefix, has_prefix, to_chars};
use crate::record::{FileRecord, RecordView};

verus! {

/// The values of a sequence of records.
pub open spec fn views(v: Seq<FileRecord>) -> Seq<RecordView> {
    v.map_values(|r: FileRecord| r@)
}

/// No two records share a path.
pub open spec fn paths_unique(s: Seq<RecordView>) -> bool {
    forall|i: int, j: int|
        0 <= i < s.len() && 0 <= j < s.len() && i != j ==> #[trigger] s[i].path != #[trigger] s[j].path
}

/// Some record of `s` has path `p`.
pub open spec fn has_path(s: Seq<RecordView>, p: Seq<char>) -> bool {
    exists|i: int| 0 <= i < s.len() && #[trigger] s[i].path == p
}

/// Insert-or-replace keyed by path: a record with the same path is replaced in place,
/// otherwise the new record goes at the end.
pub open spec fn upsert_spec(s: Seq<RecordView>, r: RecordView) -> Seq<RecordView> {
    if has_path(s, r.path) {
        s.update(choose|i: int| 0 <= i < s.len() && #[trigger] s[i].path == r.path, r)
    } else {
        s.push(r)
    }
}

/// The records that lie directly under `dir`, in index order.
pub open spec fn children_spec(s: Seq<RecordView>, dir: Seq<char>, sep: char) -> Seq<RecordView> {
    s.filter(|r: RecordView| is_direct_child(dir, r.path, sep))
}

/// A record's name holds `fragment`, and, where `ext` is not empty, its extension is `ext`.
pub open spec fn search_match(r: RecordView, fragment: Seq<char>, ext: Seq<char>) -> bool {
    contains(r.name, fragment) && (ext.len() == 0 || r.extension == Some(ext))
}

/// The records that a search for `fragment` with extension filter `ext` returns, in index order.
pub open spec fn search_spec(s: Seq<RecordView>, fragment: Seq<char>, ext: Seq<char>) -> Seq<RecordView> {
    s.filter(|r: RecordView| search_match(r, fragment, ext))
}

/// Sum of the sizes of the records whose path starts with `prefix`.
pub open spec fn size_under(s: Seq<RecordView>, prefix: Seq<char>) -> int
    decreases s.len(),
{
    if s.len() == 0 {
        0
    } else {
        size_under(s.drop_last(), prefix) + if is_prefix(prefix, s.last().path) {
            s.last().size as int
        } else {
            0
        }
    }
}

pub proof fn lemma_upsert_at(s: Seq<RecordView>, r: RecordView, i: int)
    requires
        paths_unique(s),
        0 <= i < s.len(),
        s[i].path == r.path,
    ensures
        upsert_spec(s, r) == s.update(i, r),
{
    let c = choose|j: int| 0 <= j < s.len() && #[trigger] s[j].path == r.path;
    assert(0 <= c < s.len() && s[c].path == r.path);
    assert(c == i);
}

pub proof fn lemma_upsert_unique(s: Seq<RecordView>, r: RecordView)
    requires
        paths_unique(s),
    ensures
        paths_unique(upsert_spec(s, r)),
        has_path(upsert_spec(s, r), r.path),
{
    if has_path(s, r.path) {
        let i = choose|j: int| 0 <= j < s.len() && #[trigger] s[j].path == r.path;
        lemma_upsert_at(s, r, i);
        assert(upsert_spec(s, r)[i].path == r.path);
    } else {
        let t = s.push(r);
        assert(t[s.len() as int].path == r.path);
        assert forall|i: int, j: int|
            0 <= i < t.len() && 0 <= j < t.len() && i != j implies #[trigger] t[i].path
            != #[trigger] t[j].path by {
            if i < s.len() && j < s.len() {
                assert(t[i] == s[i] && t[j] == s[j]);
            } else if i < s.len() {
                assert(t[i] == s[i]);
            } else {
                assert(t[j] == s[j]);
            }
        }
    }
}

proof fn lemma_size_under_monotone(s: Seq<RecordView>, prefix: Seq<char>, i: int, j: int)
    requires
        0 <= i <= j <= s.len(),
    ensures
        size_under(s.subrange(0, i), prefix) <= size_under(s.subrange(0, j), prefix),
    decreases j - i,
{
    if i < j {
        lemma_size_under_monotone(s, prefix, i, j - 1);
        assert(s.subrange(0, j).drop_last() == s.subrange(0, j - 1));
    }
}

/// The records of `records` that lie directly under `dir`, in order.
pub fn select_children(records: &Vec<FileRecord>, dir: &str, sep: char) -> (r: Vec<FileRecord>)
    ensures
        views(r@) == children_spec(views(records@), dir@, sep),
{
    let dir_chars = to_chars(dir);
    let ghost all = views(records@);
    let mut out: Vec<FileRecord> = Vec::new();
    let mut i: usize = 0;
    while i < records.len()
        invariant
            i <= records.len(),
            all == views(records@),
            dir_chars@ == dir@,
            views(out@) == children_spec(all.subrange(0, i as int), dir@, sep),
        decreases records.len() - i,
    {
        let ghost before = out@;
        assert(all.subrange(0, i as int + 1).drop_last() == all.subrange(0, i as int));
        assert(all.subrange(0, i as int + 1).last() == records@[i as int]@);
        proof {
            reveal(Seq::filter);
            let pre = all.subrange(0, i as int + 1);
            assert(children_spec(pre, dir@, sep) == if is_direct_child(dir@, pre.last().path, sep) {
                children_spec(pre.drop_last(), dir@, sep).push(pre.last())
            } else {
                children_spec(pre.drop_last(), dir@, sep)
            });
        }
        if is_child_path(&dir_chars, &to_chars(records[i].path.as_str()), sep) {
            out.push(records[i].duplicate());
            assert(views(out@) == views(before).push(records@[i as int]@));
        }
        i = i + 1;
    }
    assert(all.subrange(0, records.len() as int) == all);
    out
}

/// The records of `records` whose name holds `fragment` and, where `ext` is not empty,
/// whose extension is `ext`, in order.
pub fn select_matches(records: &Vec<FileRecord>, fragment: &str, ext: &str) -> (r: Vec<FileRecord>)
    ensures
        views(r@) == search_spec(views(records@), fragment@, ext@),
{
    let frag_chars = to_chars(fragment);
    let ext_chars = to_chars(ext);
    let ghost all = views(records@);
    let mut out: Vec<FileRecord> = Vec::new();
    let mut i: usize = 0;
    while i < records.len()
        invariant
            i <= records.len(),
            all == views(records@),
            frag_chars@ == fragment@,
            ext_chars@ == ext@,
            views(out@) == search_spec(all.subrange(0, i as int), fragment@, ext@),
        decreases records.len() - i,
    {
        let ghost before = out@;
        assert(all.subrange(0, i as int + 1).drop_last() == all.subrange(0, i as int));
        assert(all.subrange(0, i as int + 1).last() == records@[i as int]@);
        proof {
            reveal(Seq::filter);
            let pre = all.subrange(0, i as int + 1);
            assert(search_spec(pre, fragment@, ext@) == if search_match(pre.last(), fragment@, ext@) {
                search_spec(pre.drop_last(), fragment@, ext@).push(pre.last())
            } else {
                search_spec(pre.drop_last(), fragment@, ext@)
            });
        }
        let rec = &records[i];
        let ext_ok = if ext_chars.len() == 0 {
            true
        } else {
            match &rec.extension {
                Some(e) => same_chars(&to_chars(e.as_str()), &ext_chars),
                None => false,
            }
        };
        if ext_ok && contains_fragment(&to_chars(rec.name.as_str()), &frag_chars) {
            out.push(rec.duplicate());
            assert(views(out@) == views(before).push(records@[i as int]@));
        }
        i = i + 1;
    }
    assert(all.subrange(0, records.len() as int) == all);
    out
}

/// Whether two character sequences are equal.
fn same_chars(a: &Vec<char>, b: &Vec<char>) -> (r: bool)
    ensures
        r == (a@ == b@),
{
    if a.len() != b.len() {
        return false;
    }
    let mut i: usize = 0;
    while i < a.len()
        invariant
            a.len() == b.len(),
            i <= a.len(),
            forall|k: int| 0 <= k < i ==> a@[k] == b@[k],
        decreases a.len() - i,
    {
        if a[i] != b[i] {
            return false;
        }
        i = i + 1;
    }
    assert(a@ == b@);
    true
}

/// Sum of the sizes of the records whose path starts with `prefix`; `None` where the
/// sum does not fit in a `u64`.
pub fn total_size(records: &Vec<FileRecord>, prefix: &str) -> (r: Option<u64>)
    ensures
        r == (if size_under(views(records@), prefix@) <= u64::MAX {
            Some(size_under(views(records@), prefix@) as u64)
        } else {
            None
        }),
{
    let prefix_chars = to_chars(prefix);
    let ghost all = views(records@);
    let mut acc: u64 = 0;
    let mut i: usize = 0;
    while i < records.len()
        invariant
            i <= records.len(),
            all == views(records@),
            prefix_chars@ == prefix@,
            acc == size_under(all.subrange(0, i as int), prefix@),
        decreases records.len() - i,
    {
        assert(all.subrange(0, i as int + 1).drop_last() == all.subrange(0, i as int));
        assert(all.subrange(0, i as int + 1).last() == records@[i as int]@);
        if has_prefix(&prefix_chars, &to_chars(records[i].path.as_str())) {
            let size = records[i].size;
            if size > u64::MAX - acc {
                proof {
                    lemma_size_under_monotone(all, prefix@, i as int + 1, all.len() as int);
                    assert(all.subrange(0, all.len() as int) == all);
                }
                return None;
            }
            acc = acc + size;
        }
        i = i + 1;
    }
    assert(all.subrange(0, records.len() as int) == all);
    Some(acc)
}

} // verus!
