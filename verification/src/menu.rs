//! What a line typed at the prompt asks for.

use crate::text::{chars_of, trim_bounds, trimmed};
use vstd::prelude::*;

verus! {

/// What the user asks for after a bundle was made.
#[derive(Clone, Copy, Debug, PartialEq, Eq, Structural)]
pub enum MenuChoice {
    /// Copy the bundle to the clipboard.
    Copy,
    /// Leave.
    Quit,
    /// Anything else: ask again.
    Invalid,
}

/// The choice that a typed line stands for: `c` or `q`, in either case, with
/// any white space around it.
pub open spec fn choice_of(input: Seq<char>) -> MenuChoice {
    let word = trimmed(input);
    if word == seq!['c'] || word == seq!['C'] {
        MenuChoice::Copy
    } else if word == seq!['q'] || word == seq!['Q'] {
        MenuChoice::Quit
    } else {
        MenuChoice::Invalid
    }
}

/// The choice that a typed line stands for.
pub fn read_choice(input: &str) -> (choice: MenuChoice)
    ensures
        choice == choice_of(input@),
{
    let chars = chars_of(input);
    let (a, b) = trim_bounds(&chars);
    if b - a != 1 {
        assert(trimmed(input@).len() != seq!['c'].len());
        return MenuChoice::Invalid;
    }
    let c = chars[a];
    assert(trimmed(input@) == seq![c]);
    if c == 'c' || c == 'C' {
        MenuChoice::Copy
    } else if c == 'q' || c == 'Q' {
        assert(seq![c] != seq!['c'] && seq![c] != seq!['C']) by {
            assert(seq![c][0] == c);
        }
        MenuChoice::Quit
    } else {
        assert(seq![c][0] == c);
        MenuChoice::Invalid
    }
}

} // verus!
