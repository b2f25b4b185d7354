use vstd::prelude::*;

use crate::paths::to_chars;

verus! {

/// One indexed filesystem entry, keyed by its path.
#[derive(Debug, Clone)]
pub struct FileRecord {
    /// Final path component.
    pub name: String,
    /// Full path: the record's identity.
    pub path: String,
    /// What follows the last `.` of the name; absent for directories and extensionless names.
    pub extension: Option<String>,
    /// Size in bytes, as the filesystem reports it.
    pub size: u64,
    /// Modification time, seconds since the epoch.
    pub modified: u64,
}

/// The mathematical value of a [`FileRecord`].
pub ghost struct RecordView {
    pub name: Seq<char>,
    pub path: Seq<char>,
    pub extension: Option<Seq<char>>,
    pub size: u64,
    pub modified: u64,
}

pub open spec fn opt_view(o: Option<String>) -> Option<Seq<char>> {
    match o {
        Some(s) => Some(s@),
        None => None,
    }
}

impl View for FileRecord {
    type V = RecordView;

    open spec fn view(&self) -> RecordView {
        RecordView {
            name: self.name@,
            path: self.path@,
            extension: opt_view(self.extension),
            size: self.size,
            modified: self.modified,
        }
    }
}

/// What the filesystem reports of one entry.
#[derive(Debug, Clone, Copy)]
pub struct EntryStat {
    pub is_dir: bool,
    pub size: u64,
    /// Seconds since the epoch; `None` when the time is unreadable or before the epoch.
    pub modified: Option<u64>,
}

/// Index of the last occurrence of `c` in `s`, or -1.
pub open spec fn last_index_of(s: Seq<char>, c: char) -> int
    decreases s.len(),
{
    if s.len() == 0 {
        -1
    } else if s.last() == c {
        s.len() - 1
    } else {
        last_index_of(s.drop_last(), c)
    }
}

/// The extension of a file name: what follows its last `.`, unless that `.` is the
/// name's first character (a hidden file such as `.profile` has none).
pub open spec fn extension_of(name: Seq<char>) -> Option<Seq<char>> {
    let k = last_index_of(name, '.');
    if k > 0 {
        Some(name.subrange(k + 1, name.len() as int))
    } else {
        None
    }
}

/// Modification time clamped to the epoch: unreadable or earlier times count as zero.
pub open spec fn clamp_modified(m: Option<u64>) -> u64 {
    match m {
        Some(t) => t,
        None => 0,
    }
}

/// The record that an entry with the given path, name and metadata yields.
pub open spec fn record_of(path: Seq<char>, name: Seq<char>, stat: EntryStat) -> RecordView {
    RecordView {
        name,
        path,
        extension: if stat.is_dir {
            None
        } else {
            extension_of(name)
        },
        size: stat.size,
        modified: clamp_modified(stat.modified),
    }
}

proof fn lemma_last_index_bounds(s: Seq<char>, c: char)
    ensures
        -1 <= last_index_of(s, c) < s.len(),
        last_index_of(s, c) >= 0 ==> s[last_index_of(s, c)] == c,
        forall|j: int| last_index_of(s, c) < j < s.len() ==> s[j] != c,
    decreases s.len(),
{
    if s.len() > 0 && s.last() != c {
        lemma_last_index_bounds(s.drop_last(), c);
        assert forall|j: int| last_index_of(s, c) < j < s.len() implies s[j] != c by {
            if j < s.len() - 1 {
                assert(s[j] == s.drop_last()[j]);
            }
        }
    }
}

/// The extension of a file name, as [`extension_of`] defines it.
pub fn file_extension(name: &str) -> (r: Option<String>)
    ensures
        opt_view(r) == extension_of(name@),
{
    let chars = to_chars(name);
    let n = chars.len();
    let mut i: usize = n;
    while i > 0 && chars[i - 1] != '.'
        invariant
            i <= n,
            n == chars@.len(),
            forall|j: int| i <= j < n ==> chars@[j] != '.',
        decreases i,
    {
        i = i - 1;
    }
    proof {
        lemma_last_index_bounds(name@, '.');
        let k = last_index_of(name@, '.');
        if i > 0 {
            assert(chars@[i - 1] == '.');
            assert(k == i - 1);
        } else {
            assert(k == -1);
        }
    }
    if i > 1 {
        Some(String::from_str(name.substring_char(i, n)))
    } else {
        None
    }
}

/// Builds the record of one entry from its path, its name and what the filesystem reports.
pub fn record_from_stat(path: &str, name: &str, stat: EntryStat) -> (r: FileRecord)
    ensures
        r@ == record_of(path@, name@, stat),
{
    let extension = if stat.is_dir {
        None
    } else {
        file_extension(name)
    };
    let modified = match stat.modified {
        Some(t) => t,
        None => 0,
    };
    FileRecord {
        name: String::from_str(name),
        path: String::from_str(path),
        extension,
        size: stat.size,
        modified,
    }
}

impl FileRecord {
    /// A copy of this record.
    pub fn duplicate(&self) -> (r: FileRecord)
        ensures
            r@ == self@,
    {
        let extension = match &self.extension {
            Some(e) => Some(e.clone()),
            None => None,
        };
        FileRecord {
            name: self.name.clone(),
            path: self.path.clone(),
            extension,
            size: self.size,
            modified: self.modified,
        }
    }
}

} // verus!
