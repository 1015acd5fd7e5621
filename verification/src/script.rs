//! Which script sources are handed to the token minifier.
//!
//! `minifier::js::minify` tokenizes its input and writes the tokens out. Its
//! tokenizer slices the source at byte offsets that it keeps while it reads,
//! and on some inputs an offset goes wrong and the slice panics, or the call
//! does not return:
//!
//! - `get_comment` cuts a block comment that is still open at the end of the
//!   text with an inclusive range up to the last character it read. That is
//!   out of bounds where nothing follows `/*` or `/*!`, and off a character
//!   boundary where the last character of the text is longer than one byte.
//! - `get_line_comment` leaves the offset one byte after `//` where no line
//!   break follows, and the tokenizer cuts the rest of the text from the byte
//!   after that: off a boundary where the comment begins with a longer
//!   character.
//! - `get_regex` reads ahead for the `/` that closes a regular expression.
//!   Where the line ends first it hands what it read back to be read again.
//!   While that is read again, a look ahead (`MyPeekable::peek`) takes the
//!   next character from behind it, and that character is then returned out
//!   of turn; offsets no longer grow, and `check_if_number` cuts backwards.
//!   The tokenizer looks ahead at `/`, at `.` and inside template strings.
//! - `get_backtick_string` calls itself for each template string that is
//!   nested in `${`, and counts braces in an `i32`.
//!
//! `script_minifiable` admits a source only where none of this can happen:
//! the text ends in a way that is safe for an open comment; every `/` either
//! cannot start a regular expression where it stands, or the expression is
//! closed on its line, or the rest of the line holds nothing at which the
//! tokenizer looks ahead; and the text is short enough and holds few enough
//! backticks. The condition is stated on the text alone and is sufficient,
//! not necessary: some sources that the tokenizer reads without harm are
//! refused too. A source that is refused is bundled as it is.

use vstd::prelude::*;

verus! {

/// The longest source, in characters, that is handed to a minifier: both
/// minifiers count brackets in an `i32`.
pub const MAX_SOURCE_CHARS: usize = 0x7fff_ffff;

/// The most backticks in a source that is handed to the script minifier:
/// its recursion is at most as deep as there are backticks.
pub const MAX_BACKTICKS: usize = 1024;

/// A character that ends a line for the script tokenizer.
pub open spec fn line_break(c: char) -> bool {
    c == '\n' || c == '\r'
}

/// A character of one byte in UTF-8.
pub open spec fn ascii(c: char) -> bool {
    (c as u32) < 0x80
}

/// How often `c` occurs in `s`.
pub open spec fn count_of(s: Seq<char>, c: char) -> nat
    decreases s.len(),
{
    if s.len() == 0 {
        0
    } else {
        count_of(s.drop_last(), c) + if s.last() == c {
            1nat
        } else {
            0nat
        }
    }
}

/// Whether no line break stands in `s` at index `k` or later.
pub open spec fn last_line_from(s: Seq<char>, k: int) -> bool {
    forall|j: int| k <= j < s.len() ==> !line_break(#[trigger] s[j])
}

/// The end of the source is safe for a block comment that is still open
/// there: the last character is one byte long and is neither `*` nor `!`.
pub open spec fn ends_plainly(s: Seq<char>) -> bool {
    s.len() > 0 ==> ascii(s.last()) && s.last() != '*' && s.last() != '!'
}

/// The end of the source is safe for a line comment that runs up to it: in
/// the last line, `//` is followed by nothing or by a character of one byte.
pub open spec fn last_line_comments_plain(s: Seq<char>) -> bool {
    forall|i: int|
        0 <= i && i + 2 < s.len() && #[trigger] s[i] == '/' && s[i + 1] == '/' && last_line_from(
            s,
            i + 2,
        ) ==> ascii(s[i + 2])
}

/// A character after which, blanks aside, the tokenizer may take a `/` for
/// the start of a regular expression: a line break, or one that it reads as
/// an operator, a condition or an opening bracket. After any other
/// character `get_regex` returns before it reads ahead.
pub open spec fn before_regex(c: char) -> bool {
    ||| line_break(c)
    ||| c == ','
    ||| c == ';'
    ||| c == ':'
    ||| c == '('
    ||| c == '['
    ||| c == '{'
    ||| c == '!'
    ||| c == '?'
    ||| c == '|'
    ||| c == '&'
    ||| c == '+'
    ||| c == '-'
    ||| c == '*'
    ||| c == '/'
    ||| c == '%'
    ||| c == '='
    ||| c == '<'
    ||| c == '>'
}

/// Whether the nearest character before index `i` that is no space or tab
/// exists and is one after which a `/` divides.
pub open spec fn after_operand(s: Seq<char>, i: int) -> bool
    decreases i,
{
    if i <= 0 || i > s.len() {
        false
    } else if s[i - 1] == ' ' || s[i - 1] == '\t' {
        after_operand(s, i - 1)
    } else {
        !before_regex(s[i - 1])
    }
}

/// Whether the `/` at index `i` follows a `/` at which no block comment
/// ends. The tokenizer reads such a `/` as the start of a line comment, or
/// has just closed a regular expression with the `/` before it.
pub open spec fn after_slash(s: Seq<char>, i: int) -> bool {
    &&& 1 <= i < s.len()
    &&& s[i - 1] == '/'
    &&& (i >= 2 ==> s[i - 2] != '*')
}

/// Whether the `/` at index `i` is the last character or is followed by `/`
/// or `*`: the tokenizer tries no regular expression there.
pub open spec fn before_comment(s: Seq<char>, i: int) -> bool {
    i + 1 >= s.len() || s[i + 1] == '/' || s[i + 1] == '*'
}

/// Whether a regular expression that is read from index `k` on is closed:
/// a `/` comes before the line ends, where a character after `\` counts as
/// neither.
pub open spec fn closed_on_line(s: Seq<char>, k: int) -> bool
    decreases s.len() + 1 - k,
{
    if k < 0 || k >= s.len() {
        false
    } else if s[k] == '\\' {
        closed_on_line(s, k + 2)
    } else if s[k] == '/' {
        true
    } else if line_break(s[k]) {
        false
    } else {
        closed_on_line(s, k + 1)
    }
}

/// A character that makes the tokenizer look ahead.
pub open spec fn looks_ahead(c: char) -> bool {
    c == '/' || c == '.' || c == '`'
}

/// Whether all that a regular expression read from index `k` on passes,
/// up to the line break that stops it, makes the tokenizer look ahead
/// nowhere.
pub open spec fn quiet_to_line_end(s: Seq<char>, k: int) -> bool
    decreases s.len() + 1 - k,
{
    if k < 0 || k >= s.len() {
        true
    } else if looks_ahead(s[k]) {
        false
    } else if s[k] == '\\' {
        (k + 1 < s.len() ==> !looks_ahead(s[k + 1])) && quiet_to_line_end(s, k + 2)
    } else if line_break(s[k]) {
        true
    } else {
        quiet_to_line_end(s, k + 1)
    }
}

/// Whether the `/` at index `i` is harmless: the tokenizer tries no regular
/// expression at it, or closes the one it tries, or gives it up without
/// having looked ahead.
pub open spec fn slash_settled(s: Seq<char>, i: int) -> bool {
    ||| before_comment(s, i)
    ||| after_slash(s, i)
    ||| after_operand(s, i)
    ||| closed_on_line(s, i + 1)
    ||| quiet_to_line_end(s, i + 1)
}

/// Whether every `/` of `s` before index `n` is settled.
pub open spec fn slashes_settled(s: Seq<char>, n: int) -> bool {
    forall|i: int| 0 <= i < n && #[trigger] s[i] == '/' ==> slash_settled(s, i)
}

/// The sources that are handed to the script minifier.
pub open spec fn script_minifiable(s: Seq<char>) -> bool {
    &&& s.len() <= MAX_SOURCE_CHARS
    &&& count_of(s, '`') <= MAX_BACKTICKS
    &&& ends_plainly(s)
    &&& last_line_comments_plain(s)
    &&& slashes_settled(s, s.len() as int)
}

/// Whether `c` ends a line for the script tokenizer.
pub fn is_line_break(c: char) -> (b: bool)
    ensures
        b == line_break(c),
{
    c == '\n' || c == '\r'
}

/// Whether `c` is one byte long in UTF-8.
pub fn is_ascii(c: char) -> (b: bool)
    ensures
        b == ascii(c),
{
    (c as u32) < 0x80
}

/// Whether a `/` after `c` may start a regular expression.
pub fn is_before_regex(c: char) -> (b: bool)
    ensures
        b == before_regex(c),
{
    is_line_break(c) || c == ',' || c == ';' || c == ':' || c == '(' || c == '[' || c == '{' || c
        == '!' || c == '?' || c == '|' || c == '&' || c == '+' || c == '-' || c == '*' || c == '/'
        || c == '%' || c == '=' || c == '<' || c == '>'
}

/// Whether `c` makes the tokenizer look ahead.
pub fn is_looking_ahead(c: char) -> (b: bool)
    ensures
        b == looks_ahead(c),
{
    c == '/' || c == '.' || c == '`'
}

/// How often `c` occurs in `chars`.
pub fn count_char(chars: &Vec<char>, c: char) -> (count: usize)
    ensures
        count == count_of(chars@, c),
{
    let n = chars.len();
    let mut count: usize = 0;
    let mut i: usize = 0;
    while i < n
        invariant
            i <= n == chars.len(),
            count <= i,
            count == count_of(chars@.take(i as int), c),
        decreases n - i,
    {
        assert(chars@.take(i + 1).drop_last() == chars@.take(i as int));
        if chars[i] == c {
            count += 1;
        }
        i += 1;
    }
    assert(chars@.take(n as int) == chars@);
    count
}

/// Whether the end of `chars` is safe for a block comment still open there.
pub fn check_end(chars: &Vec<char>) -> (b: bool)
    ensures
        b == ends_plainly(chars@),
{
    let n = chars.len();
    if n == 0 {
        true
    } else {
        let last = chars[n - 1];
        is_ascii(last) && last != '*' && last != '!'
    }
}

/// Whether the end of `chars` is safe for a line comment that runs up to it.
pub fn check_last_line_comments(chars: &Vec<char>) -> (b: bool)
    ensures
        b == last_line_comments_plain(chars@),
{
    let n = chars.len();
    let mut t: usize = n;
    while t > 0 && !is_line_break(chars[t - 1])
        invariant
            t <= n == chars.len(),
            last_line_from(chars@, t as int),
        decreases t,
    {
        t -= 1;
    }
    let first: usize = if t >= 2 {
        t - 2
    } else {
        0
    };
    let mut i: usize = first;
    while n >= 3 && i < n - 2
        invariant
            first <= i,
            t <= n == chars.len(),
            first + 2 >= t,
            t >= 2 ==> first + 2 == t,
            t > 0 ==> line_break(chars@[t - 1]),
            last_line_from(chars@, t as int),
            forall|k: int|
                first <= k < i && k + 2 < n && #[trigger] chars@[k] == '/' && chars@[k + 1] == '/'
                    ==> ascii(chars@[k + 2]),
        decreases n - i,
    {
        if chars[i] == '/' && chars[i + 1] == '/' && !is_ascii(chars[i + 2]) {
            assert(last_line_from(chars@, i + 2));
            return false;
        }
        i += 1;
    }
    assert forall|k: int|
        0 <= k && k + 2 < n && #[trigger] chars@[k] == '/' && chars@[k + 1] == '/'
            && last_line_from(chars@, k + 2) implies ascii(chars@[k + 2]) by {
        if k < first {
            assert(line_break(chars@[t - 1]));
        }
    }
    true
}

/// Whether a `/` at index `i` of `chars` comes after what it can divide.
pub fn is_after_operand(chars: &Vec<char>, i: usize) -> (b: bool)
    requires
        i <= chars.len(),
    ensures
        b == after_operand(chars@, i as int),
{
    let mut j: usize = i;
    while j > 0 && (chars[j - 1] == ' ' || chars[j - 1] == '\t')
        invariant
            j <= i <= chars.len(),
            after_operand(chars@, i as int) == after_operand(chars@, j as int),
        decreases j,
    {
        j -= 1;
    }
    j > 0 && !is_before_regex(chars[j - 1])
}

/// Whether a regular expression read from index `k` of `chars` on is closed
/// on its line.
pub fn is_closed_on_line(chars: &Vec<char>, k: usize) -> (b: bool)
    requires
        k <= chars.len(),
    ensures
        b == closed_on_line(chars@, k as int),
{
    let n = chars.len();
    let mut j: usize = k;
    while j < n
        invariant
            j <= n == chars.len(),
            closed_on_line(chars@, k as int) == closed_on_line(chars@, j as int),
        decreases n - j,
    {
        let c = chars[j];
        if c == '\\' {
            if j + 1 >= n {
                assert(!closed_on_line(chars@, j + 2));
                return false;
            }
            j += 2;
        } else if c == '/' {
            return true;
        } else if is_line_break(c) {
            return false;
        } else {
            j += 1;
        }
    }
    false
}

/// Whether a regular expression read from index `k` of `chars` on passes
/// nothing that makes the tokenizer look ahead.
pub fn is_quiet_to_line_end(chars: &Vec<char>, k: usize) -> (b: bool)
    requires
        k <= chars.len(),
    ensures
        b == quiet_to_line_end(chars@, k as int),
{
    let n = chars.len();
    let mut j: usize = k;
    while j < n
        invariant
            j <= n == chars.len(),
            quiet_to_line_end(chars@, k as int) == quiet_to_line_end(chars@, j as int),
        decreases n - j,
    {
        let c = chars[j];
        if is_looking_ahead(c) {
            return false;
        } else if c == '\\' {
            if j + 1 >= n {
                assert(quiet_to_line_end(chars@, j + 2));
                return true;
            }
            if is_looking_ahead(chars[j + 1]) {
                return false;
            }
            j += 2;
        } else if is_line_break(c) {
            return true;
        } else {
            j += 1;
        }
    }
    true
}

/// Whether the `/` at index `i` of `chars` is settled.
pub fn is_slash_settled(chars: &Vec<char>, i: usize) -> (b: bool)
    requires
        i < chars.len(),
    ensures
        b == slash_settled(chars@, i as int),
{
    let n = chars.len();
    if i + 1 >= n || chars[i + 1] == '/' || chars[i + 1] == '*' {
        return true;
    }
    if i >= 1 && chars[i - 1] == '/' && (i < 2 || chars[i - 2] != '*') {
        return true;
    }
    is_after_operand(chars, i) || is_closed_on_line(chars, i + 1) || is_quiet_to_line_end(
        chars,
        i + 1,
    )
}

/// Whether `chars` is a source that is handed to the script minifier.
pub fn is_script_minifiable(chars: &Vec<char>) -> (b: bool)
    ensures
        b == script_minifiable(chars@),
{
    let n = chars.len();
    if n > MAX_SOURCE_CHARS || count_char(chars, '`') > MAX_BACKTICKS || !check_end(chars)
        || !check_last_line_comments(chars) {
        return false;
    }
    let mut i: usize = 0;
    while i < n
        invariant
            i <= n == chars.len(),
            slashes_settled(chars@, i as int),
        decreases n - i,
    {
        if chars[i] == '/' && !is_slash_settled(chars, i) {
            return false;
        }
        i += 1;
    }
    true
}

} // verus!
