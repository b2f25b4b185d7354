use vstd::prelude::*;

verus! {

/// Number of occurrences of `sep` in `s`: the depth of a path.
pub open spec fn count_sep(s: Seq<char>, sep: char) -> nat
    decreases s.len(),
{
    if s.len() == 0 {
        0
    } else {
        count_sep(s.drop_last(), sep) + if s.last() == sep { 1nat } else { 0nat }
    }
}

/// A directory path with a single trailing separator removed, if it has one.
pub open spec fn normalize(s: Seq<char>, sep: char) -> Seq<char> {
    if s.len() > 0 && s.last() == sep {
        s.drop_last()
    } else {
        s
    }
}

/// `p` is a prefix of `s`.
pub open spec fn is_prefix(p: Seq<char>, s: Seq<char>) -> bool {
    p.len() <= s.len() && s.subrange(0, p.len() as int) == p
}

/// `needle` occurs in `hay` as a contiguous run.
pub open spec fn contains(hay: Seq<char>, needle: Seq<char>) -> bool {
    exists|i: int|
        0 <= i && i + needle.len() <= hay.len() && #[trigger] hay.subrange(i, i + needle.len())
            == needle
}

/// `path` lies directly under `dir`: it starts with the normalized `dir` followed by a
/// separator and at least one more character, and has exactly one separator more.
pub open spec fn is_direct_child(dir: Seq<char>, path: Seq<char>, sep: char) -> bool {
    let n = normalize(dir, sep);
    is_prefix(n.push(sep), path) && path.len() > n.len() + 1 && count_sep(path, sep) == count_sep(
        n,
        sep,
    ) + 1
}

/// The characters that a LIKE pattern with escape character `\` treats specially.
pub open spec fn is_like_special(c: char) -> bool {
    c == '\\' || c == '%' || c == '_'
}

/// `s` written as a LIKE pattern that matches `s` literally (escape character `\`).
pub open spec fn like_escape(s: Seq<char>) -> Seq<char>
    decreases s.len(),
{
    if s.len() == 0 {
        Seq::empty()
    } else {
        like_escape(s.drop_last()) + if is_like_special(s.last()) {
            seq!['\\', s.last()]
        } else {
            seq![s.last()]
        }
    }
}

/// The characters of a string, in order.
pub fn to_chars(s: &str) -> (r: Vec<char>)
    ensures
        r@ == s@,
{
    let n = s.unicode_len();
    let mut r: Vec<char> = Vec::new();
    let mut i: usize = 0;
    while i < n
        invariant
            n == s@.len(),
            i <= n,
            r@ == s@.subrange(0, i as int),
        decreases n - i,
    {
        r.push(s.get_char(i));
        i = i + 1;
        assert(r@ == s@.subrange(0, i as int));
    }
    assert(s@.subrange(0, n as int) == s@);
    r
}

/// Counts the separator characters of a path: its depth.
pub fn separator_count(s: &Vec<char>, sep: char) -> (r: usize)
    ensures
        r == count_sep(s@, sep),
{
    let mut n: usize = 0;
    let mut i: usize = 0;
    while i < s.len()
        invariant
            i <= s.len(),
            n == count_sep(s@.subrange(0, i as int), sep),
            n <= i,
        decreases s.len() - i,
    {
        assert(s@.subrange(0, i as int + 1).drop_last() == s@.subrange(0, i as int));
        if s[i] == sep {
            n = n + 1;
        }
        i = i + 1;
    }
    assert(s@.subrange(0, s.len() as int) == s@);
    n
}

/// Removes a single trailing separator from a directory path.
pub fn normalize_dir(s: &Vec<char>, sep: char) -> (r: Vec<char>)
    ensures
        r@ == normalize(s@, sep),
{
    let mut r = s.clone();
    if r.len() > 0 && r[r.len() - 1] == sep {
        r.pop();
    }
    r
}

/// Whether `p` is a prefix of `s`.
pub fn has_prefix(p: &Vec<char>, s: &Vec<char>) -> (r: bool)
    ensures
        r == is_prefix(p@, s@),
{
    if p.len() > s.len() {
        return false;
    }
    matches_at(s, p, 0)
}

/// Whether `needle` occurs in `hay` starting at index `at`.
fn matches_at(hay: &Vec<char>, needle: &Vec<char>, at: usize) -> (r: bool)
    requires
        at + needle.len() <= hay.len(),
    ensures
        r == (hay@.subrange(at as int, at + needle.len()) == needle@),
{
    let mut j: usize = 0;
    while j < needle.len()
        invariant
            at + needle.len() <= hay.len(),
            j <= needle.len(),
            forall|k: int| 0 <= k < j ==> hay@[at + k] == needle@[k],
        decreases needle.len() - j,
    {
        if hay[at + j] != needle[j] {
            assert(hay@.subrange(at as int, at + needle.len())[j as int] != needle@[j as int]);
            return false;
        }
        j = j + 1;
    }
    assert(hay@.subrange(at as int, at + needle.len()) == needle@);
    true
}

/// Whether `needle` occurs in `hay`.
pub fn contains_fragment(hay: &Vec<char>, needle: &Vec<char>) -> (r: bool)
    ensures
        r == contains(hay@, needle@),
{
    if needle.len() > hay.len() {
        return false;
    }
    if needle.len() == 0 {
        assert(hay@.subrange(0int, 0int + needle@.len()) =~= needle@);
        return true;
    }
    let last: usize = hay.len() - needle.len();
    let mut i: usize = 0;
    while i <= last
        invariant
            last + needle.len() == hay.len(),
            needle.len() > 0,
            forall|k: int|
                0 <= k < i ==> #[trigger] hay@.subrange(k, k + needle.len()) != needle@,
        decreases last + 1 - i,
    {
        if matches_at(hay, needle, i) {
            return true;
        }
        i = i + 1;
    }
    false
}

/// Whether `path` is a direct child of the directory `dir`.
pub fn is_child_path(dir: &Vec<char>, path: &Vec<char>, sep: char) -> (r: bool)
    ensures
        r == is_direct_child(dir@, path@, sep),
{
    let mut prefix = normalize_dir(dir, sep);
    let depth = separator_count(&prefix, sep);
    prefix.push(sep);
    if !has_prefix(&prefix, path) || path.len() <= prefix.len() {
        return false;
    }
    let n = separator_count(path, sep);
    n > 0 && n - 1 == depth
}

} // verus!
