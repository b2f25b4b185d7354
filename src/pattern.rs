use vstd::prelude::*;

use crate::paths::{like_escape, normalize, normalize_dir, to_chars};

verus! {

/// Relies on `String::push`: appends one character at the end.
#[verifier::external_body]
fn push_char(s: &mut String, c: char)
    ensures
        final(s)@ == old(s)@.push(c),
{
    s.push(c)
}

/// Appends `chars` to `out`, escaping the characters that LIKE treats specially.
fn push_escaped(out: &mut String, chars: &Vec<char>)
    ensures
        final(out)@ == old(out)@ + like_escape(chars@),
{
    let mut i: usize = 0;
    while i < chars.len()
        invariant
            i <= chars.len(),
            out@ == old(out)@ + like_escape(chars@.subrange(0, i as int)),
        decreases chars.len() - i,
    {
        let c = chars[i];
        let ghost before = chars@.subrange(0, i as int);
        assert(chars@.subrange(0, i as int + 1).drop_last() == before);
        if c == '\\' || c == '%' || c == '_' {
            push_char(out, '\\');
        }
        push_char(out, c);
        i = i + 1;
        assert(out@ == old(out)@ + like_escape(chars@.subrange(0, i as int)));
    }
    assert(chars@.subrange(0, chars.len() as int) == chars@);
}

/// The LIKE pattern (escape character `\`) that selects every path below `dir`: the
/// normalized directory and one separator, both taken literally, then any suffix.
pub fn children_like_pattern(dir: &str, sep: char) -> (r: String)
    ensures
        r@ == like_escape(normalize(dir@, sep)) + like_escape(seq![sep]) + seq!['%'],
{
    let norm = normalize_dir(&to_chars(dir), sep);
    let mut out = String::new();
    push_escaped(&mut out, &norm);
    let sep_only: Vec<char> = vec![sep];
    push_escaped(&mut out, &sep_only);
    push_char(&mut out, '%');
    assert(sep_only@ =~= seq![sep]);
    assert(out@ =~= like_escape(normalize(dir@, sep)) + like_escape(seq![sep]) + seq!['%']);
    out
}

/// The LIKE pattern (escape character `\`) that selects every string starting with `prefix`.
pub fn prefix_like_pattern(prefix: &str) -> (r: String)
    ensures
        r@ == like_escape(prefix@) + seq!['%'],
{
    let mut out = String::new();
    push_escaped(&mut out, &to_chars(prefix));
    push_char(&mut out, '%');
    assert(out@ =~= like_escape(prefix@) + seq!['%']);
    out
}

/// The LIKE pattern (escape character `\`) that selects every string containing `fragment`.
pub fn contains_like_pattern(fragment: &str) -> (r: String)
    ensures
        r@ == seq!['%'] + like_escape(fragment@) + seq!['%'],
{
    let mut out = String::new();
    push_char(&mut out, '%');
    push_escaped(&mut out, &to_chars(fragment));
    push_char(&mut out, '%');
    assert(out@ =~= seq!['%'] + like_escape(fragment@) + seq!['%']);
    out
}

} // verus!
