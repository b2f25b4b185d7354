use vstd::prelude::*;

use crate::crawl::{CrawlEntry, crawl_admits, crawl_spec, crawl_step, entry_views, skip_views};
use crate::index::{
    children_spec, has_path, lemma_upsert_at, lemma_upsert_unique, paths_unique, search_spec, select_children,
    select_matches, size_under, total_size, upsert_spec, views,
};
use crate::record::{FileRecord, RecordView, record_from_stat};

verus! {

/// The index: records keyed by path, queried through one configured path separator.
pub struct FileIndex {
    records: Vec<FileRecord>,
    sep: char,
}

impl View for FileIndex {
    type V = Seq<RecordView>;

    closed spec fn view(&self) -> Seq<RecordView> {
        views(self.records@)
    }
}

impl FileIndex {
    /// The separator that the hierarchy queries count.
    pub closed spec fn sep_spec(&self) -> char {
        self.sep
    }

    /// Well-formed: no two records share a path.
    pub open spec fn wf(&self) -> bool {
        paths_unique(self@)
    }

    /// An empty index whose paths are separated by `sep`.
    pub fn new(sep: char) -> (r: FileIndex)
        ensures
            r.wf(),
            r@ == Seq::<RecordView>::empty(),
            r.sep_spec() == sep,
    {
        let r = FileIndex { records: Vec::new(), sep };
        assert(r@ =~= Seq::<RecordView>::empty());
        r
    }

    /// The configured path separator.
    pub fn separator(&self) -> (r: char)
        ensures
            r == self.sep_spec(),
    {
        self.sep
    }

    /// Whether the index holds any record.
    pub fn has_files(&self) -> (r: bool)
        ensures
            r == (self@.len() > 0),
    {
        self.records.len() > 0
    }

    /// Number of records.
    pub fn len(&self) -> (r: usize)
        ensures
            r == self@.len(),
    {
        self.records.len()
    }

    /// Inserts `rec`, replacing the record with the same path if there is one.
    pub fn upsert(&mut self, rec: FileRecord)
        requires
            old(self).wf(),
        ensures
            final(self).wf(),
            final(self)@ == upsert_spec(old(self)@, rec@),
            final(self).sep_spec() == old(self).sep_spec(),
    {
        let ghost s = self@;
        proof {
            lemma_upsert_unique(s, rec@);
        }
        let mut i: usize = 0;
        while i < self.records.len()
            invariant
                i <= self.records.len(),
                s == old(self)@,
                s == self@,
                self.sep == old(self).sep,
                paths_unique(s),
                forall|j: int| 0 <= j < i ==> s[j].path != rec@.path,
            decreases self.records.len() - i,
        {
            assert(s[i as int] == self.records@[i as int]@);
            if self.records[i].path == rec.path {
                proof {
                    lemma_upsert_at(s, rec@, i as int);
                }
                self.records.set(i, rec);
                assert(self@ =~= s.update(i as int, rec@));
                return;
            }
            i = i + 1;
        }
        assert(!has_path(s, rec@.path));
        self.records.push(rec);
        assert(self@ =~= s.push(rec@));
    }

    /// The records that lie directly under `dir`: neither `dir` itself nor deeper ones.
    pub fn list_children(&self, dir: &str) -> (r: Vec<FileRecord>)
        ensures
            views(r@) == children_spec(self@, dir@, self.sep_spec()),
    {
        select_children(&self.records, dir, self.sep)
    }

    /// The records whose name holds `fragment` (case-sensitive) and, where `ext` is not
    /// empty, whose extension is exactly `ext`.
    pub fn search_files(&self, fragment: &str, ext: &str) -> (r: Vec<FileRecord>)
        ensures
            views(r@) == search_spec(self@, fragment@, ext@),
    {
        select_matches(&self.records, fragment, ext)
    }

    /// Sum of the sizes of the records whose path starts with `prefix`; `None` where it
    /// does not fit in a `u64`.
    pub fn directory_size(&self, prefix: &str) -> (r: Option<u64>)
        ensures
            r == (if size_under(self@, prefix@) <= u64::MAX {
                Some(size_under(self@, prefix@) as u64)
            } else {
                None
            }),
    {
        total_size(&self.records, prefix)
    }

    /// Feeds one crawled entry to the index: a visited entry whose metadata was read is
    /// upserted; any other leaves the index as it was.
    pub fn ingest_entry(&mut self, entry: &CrawlEntry, skip: &Vec<String>)
        requires
            old(self).wf(),
        ensures
            final(self).wf(),
            final(self)@ == crawl_step(old(self)@, entry@, skip_views(skip@)),
            final(self).sep_spec() == old(self).sep_spec(),
    {
        if crawl_admits(entry.path.as_str(), entry.is_symlink, skip) {
            match entry.stat {
                Some(stat) => {
                    let rec = record_from_stat(entry.path.as_str(), entry.name.as_str(), stat);
                    self.upsert(rec);
                },
                None => {},
            }
        }
    }

    /// Feeds the entries of a walk to the index, in order. An entry whose metadata could
    /// not be read is skipped and the crawl goes on.
    pub fn crawl(&mut self, entries: &Vec<CrawlEntry>, skip: &Vec<String>)
        requires
            old(self).wf(),
        ensures
            final(self).wf(),
            final(self)@ == crawl_spec(old(self)@, entry_views(entries@), skip_views(skip@)),
            final(self).sep_spec() == old(self).sep_spec(),
    {
        let ghost s0 = self@;
        let ghost es = entry_views(entries@);
        let mut i: usize = 0;
        while i < entries.len()
            invariant
                i <= entries.len(),
                es == entry_views(entries@),
                self.wf(),
                self.sep_spec() == old(self).sep_spec(),
                self@ == crawl_spec(s0, es.subrange(0, i as int), skip_views(skip@)),
            decreases entries.len() - i,
        {
            assert(es.subrange(0, i as int + 1).drop_last() == es.subrange(0, i as int));
            assert(es.subrange(0, i as int + 1).last() == entries@[i as int]@);
            self.ingest_entry(&entries[i], skip);
            i = i + 1;
        }
        assert(es.subrange(0, entries.len() as int) == es);
    }
}

} // verus!
