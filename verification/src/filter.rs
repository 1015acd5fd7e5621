//! The extension filter: which files take part in a bundle.

use crate::text::{chars_of, copy_range, string_of, texts_of};
use vstd::prelude::*;

verus! {

/// The index of the last `.` of `name`, or -1 where it has none.
pub open spec fn last_dot(name: Seq<char>) -> int
    decreases name.len(),
{
    if name.len() == 0 {
        -1
    } else if name.last() == '.' {
        name.len() - 1
    } else {
        last_dot(name.drop_last())
    }
}

/// The extension of a file name: what follows its last `.`, where that `.`
/// is not the first character of the name. The name `..` has none.
pub open spec fn extension_of(name: Seq<char>) -> Option<Seq<char>> {
    let dot = last_dot(name);
    if dot <= 0 || name == seq!['.', '.'] {
        None
    } else {
        Some(name.skip(dot + 1))
    }
}

/// Whether a file of this name takes part: it has an extension, and the
/// extension is one of `extensions`, letter for letter.
pub open spec fn accepted(name: Seq<char>, extensions: Seq<Seq<char>>) -> bool {
    match extension_of(name) {
        Some(extension) => extensions.contains(extension),
        None => false,
    }
}

/// `last_dot` is the index of a `.` after which no other stands.
pub proof fn lemma_last_dot(name: Seq<char>)
    ensures
        -1 <= last_dot(name) < name.len(),
        last_dot(name) >= 0 ==> name[last_dot(name)] == '.',
        forall|i: int| last_dot(name) < i < name.len() ==> name[i] != '.',
    decreases name.len(),
{
    if name.len() > 0 && name.last() != '.' {
        lemma_last_dot(name.drop_last());
        assert forall|i: int| last_dot(name) < i < name.len() implies name[i] != '.' by {
            if i < name.len() - 1 {
                assert(name[i] == name.drop_last()[i]);
            }
        }
    }
}

/// An extension holds no `.`.
pub proof fn lemma_extension_has_no_dot(name: Seq<char>)
    ensures
        extension_of(name) matches Some(extension) ==> !extension.contains('.'),
{
    lemma_last_dot(name);
}

/// Where the last `.` of `chars` stands, if it has one.
pub fn find_last_dot(chars: &Vec<char>) -> (dot: Option<usize>)
    ensures
        match dot {
            Some(i) => i == last_dot(chars@) && i < chars.len(),
            None => last_dot(chars@) == -1,
        },
{
    let mut i: usize = chars.len();
    assert(chars@.take(i as int) == chars@);
    while i > 0
        invariant
            i <= chars.len(),
            last_dot(chars@) == last_dot(chars@.take(i as int)),
        decreases i,
    {
        if chars[i - 1] == '.' {
            return Some(i - 1);
        }
        assert(chars@.take(i as int).drop_last() == chars@.take(i - 1));
        i -= 1;
    }
    None
}

/// The extension of a file name, if it has one.
pub fn extension(file_name: &str) -> (out: Option<String>)
    ensures
        match out {
            Some(extension) => extension_of(file_name@) == Some(extension@),
            None => extension_of(file_name@) is None,
        },
{
    let chars = chars_of(file_name);
    let n = chars.len();
    if n == 2 && chars[0] == '.' && chars[1] == '.' {
        assert(chars@ == seq!['.', '.']);
        return None;
    }
    match find_last_dot(&chars) {
        Some(dot) => {
            if dot == 0 {
                None
            } else {
                let tail = copy_range(&chars, dot + 1, n);
                assert(chars@.subrange(dot + 1, n as int) == chars@.skip(dot + 1));
                Some(string_of(&tail))
            }
        },
        None => None,
    }
}

/// Whether `extension` is one of `extensions`.
pub fn is_listed(extension: &String, extensions: &Vec<String>) -> (b: bool)
    ensures
        b == texts_of(extensions@).contains(extension@),
{
    let ghost listed = texts_of(extensions@);
    let mut i: usize = 0;
    while i < extensions.len()
        invariant
            i <= extensions.len(),
            listed == texts_of(extensions@),
            forall|k: int| 0 <= k < i ==> listed[k] != extension@,
        decreases extensions.len() - i,
    {
        if extensions[i] == *extension {
            assert(listed[i as int] == extension@);
            return true;
        }
        i += 1;
    }
    false
}

/// Whether a file of this name takes part in a bundle of `extensions`.
pub fn accepts(file_name: &str, extensions: &Vec<String>) -> (b: bool)
    ensures
        b == accepted(file_name@, texts_of(extensions@)),
{
    match extension(file_name) {
        Some(found) => is_listed(&found, extensions),
        None => false,
    }
}

} // verus!
