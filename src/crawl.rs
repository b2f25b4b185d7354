use vstd::prelude::*;

use crate::index::upsert_spec;
use crate::paths::{contains, contains_fragment, to_chars};
use crate::record::{EntryStat, RecordView, record_of};

verus! {

/// One entry met while walking a tree: its path and name, whether it is a symbolic
/// link, and its metadata, `None` where reading the metadata failed.
#[derive(Debug, Clone)]
pub struct CrawlEntry {
    pub path: String,
    pub name: String,
    pub is_symlink: bool,
    pub stat: Option<EntryStat>,
}

/// The mathematical value of a [`CrawlEntry`].
pub ghost struct EntryView {
    pub path: Seq<char>,
    pub name: Seq<char>,
    pub is_symlink: bool,
    pub stat: Option<EntryStat>,
}

impl View for CrawlEntry {
    type V = EntryView;

    open spec fn view(&self) -> EntryView {
        EntryView { path: self.path@, name: self.name@, is_symlink: self.is_symlink, stat: self.stat }
    }
}

/// The values of a sequence of entries.
pub open spec fn entry_views(v: Seq<CrawlEntry>) -> Seq<EntryView> {
    v.map_values(|e: CrawlEntry| e@)
}

/// The values of a list of excluded fragments.
pub open spec fn skip_views(v: Seq<String>) -> Seq<Seq<char>> {
    v.map_values(|k: String| k@)
}

/// `path` holds one of the excluded fragments.
pub open spec fn is_excluded(path: Seq<char>, skip: Seq<Seq<char>>) -> bool {
    exists|k: int| 0 <= k < skip.len() && contains(path, #[trigger] skip[k])
}

/// A crawl visits an entry: it is no symbolic link and its path holds no excluded fragment.
pub open spec fn admitted(path: Seq<char>, is_symlink: bool, skip: Seq<Seq<char>>) -> bool {
    !is_symlink && !is_excluded(path, skip)
}

/// An entry yields a record: it is visited and its metadata could be read.
pub open spec fn yields_record(e: EntryView, skip: Seq<Seq<char>>) -> bool {
    admitted(e.path, e.is_symlink, skip) && e.stat is Some
}

/// The record that an entry yields.
pub open spec fn entry_record(e: EntryView) -> RecordView {
    record_of(e.path, e.name, e.stat->0)
}

/// The index after one entry of a crawl.
pub open spec fn crawl_step(s: Seq<RecordView>, e: EntryView, skip: Seq<Seq<char>>) -> Seq<RecordView> {
    if yields_record(e, skip) {
        upsert_spec(s, entry_record(e))
    } else {
        s
    }
}

/// The index after a crawl that met `entries` in order, starting from `s`.
pub open spec fn crawl_spec(s: Seq<RecordView>, entries: Seq<EntryView>, skip: Seq<Seq<char>>) -> Seq<RecordView>
    decreases entries.len(),
{
    if entries.len() == 0 {
        s
    } else {
        crawl_step(crawl_spec(s, entries.drop_last(), skip), entries.last(), skip)
    }
}

/// Whether a crawl visits an entry with this path: symbolic links are never visited, nor
/// any path that holds one of the fragments of `skip`.
pub fn crawl_admits(path: &str, is_symlink: bool, skip: &Vec<String>) -> (r: bool)
    ensures
        r == admitted(path@, is_symlink, skip_views(skip@)),
{
    if is_symlink {
        return false;
    }
    let chars = to_chars(path);
    let ghost ks = skip_views(skip@);
    let mut k: usize = 0;
    while k < skip.len()
        invariant
            k <= skip.len(),
            ks == skip_views(skip@),
            chars@ == path@,
            forall|j: int| 0 <= j < k ==> !contains(path@, #[trigger] ks[j]),
        decreases skip.len() - k,
    {
        if contains_fragment(&chars, &to_chars(skip[k].as_str())) {
            assert(contains(path@, ks[k as int]));
            return false;
        }
        k = k + 1;
    }
    true
}

} // verus!
