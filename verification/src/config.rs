//! The settings of a run: which extensions take part.

use crate::text::{
    chars_of, copy_range, split_chars, split_on, string_of, texts_of, trim_bounds, trimmed,
    views_of,
};
use vstd::prelude::*;

verus! {

/// The settings that are kept between runs.
pub struct Config {
    /// The extensions of the files that take part, without the dot.
    pub extensions: Vec<String>,
}

/// The extensions of a run that names none: `js`, `ts`, `jsx`, `tsx`, `css`.
pub open spec fn default_extensions() -> Seq<Seq<char>> {
    seq![
        seq!['j', 's'],
        seq!['t', 's'],
        seq!['j', 's', 'x'],
        seq!['t', 's', 'x'],
        seq!['c', 's', 's'],
    ]
}

/// Each of `parts` trimmed.
pub open spec fn each_trimmed(parts: Seq<Seq<char>>) -> Seq<Seq<char>> {
    Seq::new(parts.len(), |i: int| trimmed(parts[i]))
}

/// The extensions that a list names: its pieces between commas, each
/// trimmed. A list of no character names one empty extension.
pub open spec fn listed_extensions(list: Seq<char>) -> Seq<Seq<char>> {
    each_trimmed(split_on(list, ','))
}

impl Default for Config {
    fn default() -> (config: Config)
        ensures
            texts_of(config.extensions@) == default_extensions(),
    {
        let mut extensions: Vec<String> = Vec::new();
        extensions.push(string_of(&vec!['j', 's']));
        extensions.push(string_of(&vec!['t', 's']));
        extensions.push(string_of(&vec!['j', 's', 'x']));
        extensions.push(string_of(&vec!['t', 's', 'x']));
        extensions.push(string_of(&vec!['c', 's', 's']));
        assert(texts_of(extensions@) == default_extensions());
        Config { extensions }
    }
}

/// The extensions that a comma-separated list names.
pub fn parse_extensions(list: &str) -> (extensions: Vec<String>)
    ensures
        texts_of(extensions@) == listed_extensions(list@),
{
    let chars = chars_of(list);
    let pieces = split_chars(&chars, ',');
    let ghost parts = views_of(pieces@);
    let mut extensions: Vec<String> = Vec::new();
    let mut i: usize = 0;
    while i < pieces.len()
        invariant
            i <= pieces.len(),
            parts == views_of(pieces@),
            texts_of(extensions@) == each_trimmed(parts.take(i as int)),
        decreases pieces.len() - i,
    {
        let (a, b) = trim_bounds(&pieces[i]);
        let kept = copy_range(&pieces[i], a, b);
        let ghost before = texts_of(extensions@);
        extensions.push(string_of(&kept));
        assert(texts_of(extensions@) == before.push(trimmed(parts[i as int])));
        assert(each_trimmed(parts.take(i + 1)) == each_trimmed(parts.take(i as int)).push(
            trimmed(parts[i as int]),
        ));
        i += 1;
    }
    assert(parts.take(pieces.len() as int) == parts);
    extensions
}

} // verus!
