use file_index::crawl::{crawl_admits, CrawlEntry};
use file_index::paths::{is_child_path, separator_count, to_chars};
use file_index::pattern::{children_like_pattern, contains_like_pattern, prefix_like_pattern};
use file_index::record::{file_extension, record_from_stat, EntryStat, FileRecord};
use file_index::store::FileIndex;

fn file(size: u64) -> EntryStat {
    EntryStat { is_dir: false, size, modified: Some(100) }
}

fn dir() -> EntryStat {
    EntryStat { is_dir: true, size: 0, modified: Some(100) }
}

fn rec(path: &str, stat: EntryStat) -> FileRecord {
    let name = path.rsplit('/').next().unwrap();
    record_from_stat(path, name, stat)
}

fn entry(path: &str, is_symlink: bool, stat: Option<EntryStat>) -> CrawlEntry {
    let name = path.rsplit('/').next().unwrap().to_string();
    CrawlEntry { path: path.to_string(), name, is_symlink, stat }
}

fn index_of(records: Vec<FileRecord>) -> FileIndex {
    let mut idx = FileIndex::new('/');
    for r in records {
        idx.upsert(r);
    }
    idx
}

fn paths(records: &[FileRecord]) -> Vec<String> {
    let mut v: Vec<String> = records.iter().map(|r| r.path.clone()).collect();
    v.sort();
    v
}

fn all_paths(idx: &FileIndex) -> Vec<String> {
    paths(&idx.search_files("", ""))
}

fn skip_list() -> Vec<String> {
    vec!["CloudStore".to_string(), "OneDrive".to_string(), "System Volume Information".to_string()]
}

#[test]
fn children_are_direct_only() {
    let idx = index_of(vec![
        rec("root", dir()),
        rec("root/a", dir()),
        rec("root/a/b", file(1)),
        rec("root/c", file(2)),
    ]);
    assert_eq!(paths(&idx.list_children("root")), vec!["root/a", "root/c"]);
}

#[test]
fn children_with_trailing_separator() {
    let idx = index_of(vec![rec("root", dir()), rec("root/a", dir()), rec("root/a/b", file(1))]);
    assert_eq!(paths(&idx.list_children("root/")), vec!["root/a"]);
    assert_eq!(paths(&idx.list_children("root/a/")), vec!["root/a/b"]);
}

#[test]
fn children_need_separator_boundary() {
    let idx = index_of(vec![rec("root", dir()), rec("rootXYZ", dir()), rec("rootXYZ/q", file(3)), rec("root/x", file(1))]);
    assert_eq!(paths(&idx.list_children("root")), vec!["root/x"]);
}

#[test]
fn children_of_top_level_path() {
    let idx = index_of(vec![rec("/", dir()), rec("/a", dir()), rec("/a/b", file(1))]);
    assert_eq!(paths(&idx.list_children("/")), vec!["/a"]);
}

#[test]
fn children_of_unknown_dir_are_empty() {
    let idx = index_of(vec![rec("root/a", file(1))]);
    assert!(idx.list_children("other").is_empty());
}

#[test]
fn subtree_size_sums_descendants() {
    let idx = index_of(vec![rec("root/sub/x", file(10)), rec("root/sub/y", file(20)), rec("root/other", file(5))]);
    assert_eq!(idx.directory_size("root/sub"), Some(30));
    assert_eq!(idx.directory_size("root"), Some(35));
    assert_eq!(idx.directory_size("nowhere"), Some(0));
}

#[test]
fn subtree_size_is_a_plain_prefix_sum() {
    let idx = index_of(vec![rec("root", file(1)), rec("rootXYZ", file(2))]);
    assert_eq!(idx.directory_size("root"), Some(3));
}

#[test]
fn subtree_size_overflow_is_none() {
    let idx = index_of(vec![rec("r/a", file(u64::MAX)), rec("r/b", file(1))]);
    assert_eq!(idx.directory_size("r"), None);
    assert_eq!(idx.directory_size("r/a"), Some(u64::MAX));
}

#[test]
fn search_filters_compose() {
    let idx = index_of(vec![rec("a.txt", file(1)), rec("ab.txt", file(1)), rec("a.md", file(1))]);
    assert_eq!(paths(&idx.search_files("a", "")), vec!["a.md", "a.txt", "ab.txt"]);
    assert_eq!(paths(&idx.search_files("a", "txt")), vec!["a.txt", "ab.txt"]);
    assert_eq!(paths(&idx.search_files("b", "")), vec!["ab.txt"]);
    assert!(idx.search_files("A", "").is_empty());
}

#[test]
fn search_empty_extension_is_no_filter() {
    let idx = index_of(vec![rec("noext", file(1)), rec("d", dir()), rec("x.rs", file(1))]);
    assert_eq!(paths(&idx.search_files("", "")), vec!["d", "noext", "x.rs"]);
    assert_eq!(paths(&idx.search_files("", "rs")), vec!["x.rs"]);
}

#[test]
fn upsert_replaces_same_path() {
    let mut idx = FileIndex::new('/');
    assert!(!idx.has_files());
    idx.upsert(rec("p/f.txt", file(1)));
    idx.upsert(rec("p/f.txt", file(9)));
    assert!(idx.has_files());
    assert_eq!(idx.len(), 1);
    assert_eq!(idx.directory_size("p"), Some(9));
}

#[test]
fn crawl_indexes_each_path_once() {
    let mut idx = FileIndex::new('/');
    let entries = vec![
        entry("t", false, Some(dir())),
        entry("t/a.txt", false, Some(file(4))),
        entry("t/link", true, Some(file(7))),
        entry("t/a.txt", false, Some(file(4))),
        entry("t/sub", false, Some(dir())),
    ];
    idx.crawl(&entries, &skip_list());
    assert_eq!(all_paths(&idx), vec!["t", "t/a.txt", "t/sub"]);
    assert_eq!(idx.len(), 3);
}

#[test]
fn crawl_twice_is_crawl_once() {
    let entries = vec![
        entry("t", false, Some(dir())),
        entry("t/a.txt", false, Some(file(4))),
        entry("t/b.md", false, Some(file(6))),
    ];
    let mut once = FileIndex::new('/');
    once.crawl(&entries, &skip_list());
    let mut twice = FileIndex::new('/');
    twice.crawl(&entries, &skip_list());
    twice.crawl(&entries, &skip_list());
    let a = once.search_files("", "");
    let b = twice.search_files("", "");
    assert_eq!(a.len(), b.len());
    for (x, y) in a.iter().zip(b.iter()) {
        assert_eq!(x.path, y.path);
        assert_eq!(x.name, y.name);
        assert_eq!(x.extension, y.extension);
        assert_eq!(x.size, y.size);
        assert_eq!(x.modified, y.modified);
    }
}

#[test]
fn second_crawl_overwrites_size() {
    let mut idx = FileIndex::new('/');
    idx.crawl(&vec![entry("t/f.bin", false, Some(file(10)))], &skip_list());
    idx.crawl(&vec![entry("t/f.bin", false, Some(file(25)))], &skip_list());
    assert_eq!(idx.len(), 1);
    assert_eq!(idx.directory_size("t/f.bin"), Some(25));
}

#[test]
fn crawl_skips_excluded_fragments() {
    let mut idx = FileIndex::new('/');
    let entries = vec![
        entry("t", false, Some(dir())),
        entry("t/OneDrive", false, Some(dir())),
        entry("t/OneDrive/doc.txt", false, Some(file(3))),
        entry("t/keep.txt", false, Some(file(1))),
    ];
    idx.crawl(&entries, &skip_list());
    assert_eq!(all_paths(&idx), vec!["t", "t/keep.txt"]);
}

#[test]
fn crawl_goes_on_after_unreadable_entry() {
    let mut idx = FileIndex::new('/');
    let entries = vec![
        entry("t/a", false, Some(file(1))),
        entry("t/gone", false, None),
        entry("t/b", false, Some(file(2))),
    ];
    idx.crawl(&entries, &skip_list());
    assert_eq!(all_paths(&idx), vec!["t/a", "t/b"]);
}

#[test]
fn admits_rules() {
    let skip = skip_list();
    assert!(crawl_admits("C:\\Users\\me", false, &skip));
    assert!(!crawl_admits("C:\\Users\\me", true, &skip));
    assert!(!crawl_admits("C:\\System Volume Information\\x", false, &skip));
    assert!(!crawl_admits("D:\\CloudStore", false, &skip));
    assert!(crawl_admits("anything", false, &Vec::new()));
}

#[test]
fn extension_rules() {
    assert_eq!(file_extension("a.txt"), Some("txt".to_string()));
    assert_eq!(file_extension("a.b.c"), Some("c".to_string()));
    assert_eq!(file_extension("noext"), None);
    assert_eq!(file_extension(".bashrc"), None);
    assert_eq!(file_extension(".config.toml"), Some("toml".to_string()));
    assert_eq!(file_extension("trailing."), Some("".to_string()));
    assert_eq!(file_extension(""), None);
}

#[test]
fn record_from_metadata() {
    let r = record_from_stat("x/photo.jpg", "photo.jpg", EntryStat { is_dir: false, size: 42, modified: None });
    assert_eq!(r.name, "photo.jpg");
    assert_eq!(r.path, "x/photo.jpg");
    assert_eq!(r.extension, Some("jpg".to_string()));
    assert_eq!(r.size, 42);
    assert_eq!(r.modified, 0);
    let d = record_from_stat("x/v1.2", "v1.2", EntryStat { is_dir: true, size: 4096, modified: Some(1700000000) });
    assert_eq!(d.extension, None);
    assert_eq!(d.modified, 1700000000);
    let c = r.duplicate();
    assert_eq!(c.path, r.path);
}

#[test]
fn like_patterns_escape() {
    assert_eq!(children_like_pattern("C:\\Users\\", '\\'), "C:\\\\Users\\\\%");
    assert_eq!(children_like_pattern("C:", '\\'), "C:\\\\%");
    assert_eq!(children_like_pattern("/home/a_b", '/'), "/home/a\\_b/%");
    assert_eq!(prefix_like_pattern("50%_x"), "50\\%\\_x%");
    assert_eq!(contains_like_pattern("ab"), "%ab%");
    assert_eq!(contains_like_pattern(""), "%%");
}

#[test]
fn separator_arithmetic() {
    assert_eq!(separator_count(&to_chars("a\\b\\c"), '\\'), 2);
    assert_eq!(separator_count(&to_chars("abc"), '\\'), 0);
    assert!(is_child_path(&to_chars("C:\\x"), &to_chars("C:\\x\\y"), '\\'));
    assert!(is_child_path(&to_chars("C:\\x\\"), &to_chars("C:\\x\\y"), '\\'));
    assert!(!is_child_path(&to_chars("C:\\x"), &to_chars("C:\\x\\y\\z"), '\\'));
    assert!(!is_child_path(&to_chars("C:\\x"), &to_chars("C:\\xy"), '\\'));
    assert!(!is_child_path(&to_chars("C:\\x"), &to_chars("C:\\x"), '\\'));
    let idx = FileIndex::new('\\');
    assert_eq!(idx.separator(), '\\');
}
