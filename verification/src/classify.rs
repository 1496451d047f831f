//! From the path of a file to its extension and its language.

use crate::languages::{language_of, names_language};
use vstd::prelude::*;

verus! {

/// The place of the last `c` in `s`, or `-1` where `s` holds none.
pub open spec fn last_index(s: Seq<char>, c: char) -> int
    decreases s.len(),
{
    if s.len() == 0 {
        -1
    } else if s.last() == c {
        s.len() - 1
    } else {
        last_index(s.drop_last(), c)
    }
}

/// The name of the file that a path ends in: what follows its last `/`.
/// A path that ends in `/` names no file, so `a/b.rs/` has the empty name
/// and no extension; `/` is the only separator.
pub open spec fn file_name(path: Seq<char>) -> Seq<char> {
    path.skip(last_index(path, '/') + 1)
}

/// The extension of the file that a path ends in: what follows the last dot
/// of its name. A name without a dot has none, nor has one whose only dot
/// is its first character, nor the name `..`.
pub open spec fn extension(path: Seq<char>) -> Option<Seq<char>> {
    let name = file_name(path);
    let dot = last_index(name, '.');
    if dot <= 0 || name == seq!['.', '.'] {
        None
    } else {
        Some(name.skip(dot + 1))
    }
}

/// The language of the file that a path ends in, by its extension.
pub open spec fn classify(path: Seq<char>) -> Option<Seq<char>> {
    match extension(path) {
        Some(extension) => language_of(extension),
        None => None,
    }
}

/// `last_index` is the place of the last `c`, and none follows it.
pub proof fn lemma_last_index(s: Seq<char>, c: char)
    ensures
        -1 <= last_index(s, c) < s.len(),
        last_index(s, c) >= 0 ==> s[last_index(s, c)] == c,
        forall|j: int| last_index(s, c) < j < s.len() ==> s[j] != c,
    decreases s.len(),
{
    if s.len() > 0 && s.last() != c {
        lemma_last_index(s.drop_last(), c);
        assert forall|j: int| last_index(s, c) < j < s.len() implies s[j] != c by {
            if j < s.len() - 1 {
                assert(s.drop_last()[j] == s[j]);
            }
        }
    }
}

/// The extension of the file that `path` ends in. The path is taken as it
/// is written: one that ends in `/` or in `/.` ends in no file and has no
/// extension. A scan hands in the paths of files, which do not end so.
pub fn extension_of(path: &str) -> (found: Option<&str>)
    ensures
        match found {
            Some(text) => extension(path@) == Some(text@),
            None => extension(path@) is None,
        },
{
    let len = path.unicode_len();
    let mut start: usize = 0;
    let mut dot: Option<usize> = None;
    let mut k: usize = 0;
    for c in chars: path.chars()
        invariant
            chars.seq() == path@,
            len == path@.len(),
            k == chars.index(),
            start == last_index(path@.take(k as int), '/') + 1,
            start <= k,
            match dot {
                Some(d) => start <= d < k && last_index(file_name(path@.take(k as int)), '.') == d
                    - start,
                None => last_index(file_name(path@.take(k as int)), '.') == -1,
            },
    {
        proof {
            let before = path@.take(k as int);
            let after = path@.take(k + 1);
            assert(after.drop_last() =~= before);
            lemma_last_index(before, '/');
            if c != '/' {
                assert(file_name(after).drop_last() =~= file_name(before));
            }
        }
        if c == '/' {
            start = k + 1;
            dot = None;
        } else if c == '.' {
            dot = Some(k);
        }
        k = k + 1;
    }
    assert(path@.take(k as int) =~= path@);
    match dot {
        Some(d) => {
            let name = path.substring_char(start, len);
            proof {
                reveal_strlit("..");
                assert(".."@ =~= seq!['.', '.']);
            }
            if d == start || name.eq("..") {
                None
            } else {
                Some(path.substring_char(d + 1, len))
            }
        },
        None => None,
    }
}

/// Whether the file that `path` ends in has an extension.
pub fn is_valid_file(path: &str) -> (valid: bool)
    ensures
        valid == extension(path@).is_some(),
{
    extension_of(path).is_some()
}

/// The name of the language of the file that `path` ends in.
pub fn get_language_name(path: &str) -> (name: Option<String>)
    ensures
        names_language(name, classify(path@)),
{
    match extension_of(path) {
        Some(extension) => crate::languages::get_language_name(extension),
        None => None,
    }
}

} // verus!
