//! Minifying one file: style sheets by the style minifier, scripts either by
//! the token minifier or line by line with their comments kept.

use crate::script::{is_script_minifiable, script_minifiable, MAX_SOURCE_CHARS};
use crate::text::{
    chars_of, contains, has_pair, lemma_lines_concat, lines_of, push_chars, split_lines,
    starts_with, trim_bounds, trimmed, views_of,
};
use vstd::prelude::*;

verus! {

/// Where a line-by-line reading of a script stands between two lines.
#[derive(Clone, Copy, Debug, PartialEq, Eq, Structural)]
pub enum CommentState {
    /// Outside any block comment.
    Normal,
    /// Inside a block comment that an earlier line opened.
    InBlockComment,
}

/// What `minifier::js::minify` makes of a source, written out as text. It is
/// a function of the text for a given target: the tokenizer reads a run of
/// digits through `usize`, so a 32-bit target leaves a longer number as it is
/// written.
pub uninterp spec fn minified_script(code: Seq<char>) -> Seq<char>;

/// What `minifier::css::minify` makes of a source, written out as text, or
/// `None` where it refuses the source.
pub uninterp spec fn minified_style(code: Seq<char>) -> Option<Seq<char>>;

/// Calls `minifier::js::minify` and writes its tokens out with `to_string`.
///
/// Taken on trust: that the call returns on every source that
/// `script_minifiable` admits, and that what it returns is determined by the
/// source text. The minifier keeps no state between calls and reads nothing
/// but its argument.
#[verifier::external_body]
fn run_script_minifier(code: &str) -> (out: String)
    requires
        script_minifiable(code@),
    ensures
        out@ == minified_script(code@),
{
    minifier::js::minify(code).to_string()
}

/// Calls `minifier::css::minify` and writes its tokens out with `to_string`;
/// `None` where it returns an error (an unclosed string or comment, a
/// bracket that does not match).
///
/// Taken on trust: that the call returns on every source within the bound,
/// and that what it returns is determined by the source text. The bound
/// keeps the `i32` in which the minifier counts parentheses from
/// overflowing; it slices its input only at offsets of characters it has
/// read.
#[verifier::external_body]
fn run_style_minifier(code: &str) -> (out: Option<String>)
    requires
        code@.len() <= MAX_SOURCE_CHARS,
    ensures
        match out {
            Some(text) => minified_style(code@) == Some(text@),
            None => minified_style(code@) is None,
        },
{
    match minifier::css::minify(code) {
        Ok(minified) => Some(minified.to_string()),
        Err(_) => None,
    }
}

/// The marker that starts a line comment.
pub open spec fn line_comment_marker() -> Seq<char> {
    seq!['/', '/']
}

/// The marker that opens a block comment.
pub open spec fn block_open_marker() -> Seq<char> {
    seq!['/', '*']
}

/// The marker that closes a block comment.
pub open spec fn block_close_marker() -> Seq<char> {
    seq!['*', '/']
}

/// Whether a line is kept as it stands: it is a line comment, or the lines
/// before it left a block comment open.
pub open spec fn kept_verbatim(line: Seq<char>, state: CommentState) -> bool {
    starts_with(trimmed(line), line_comment_marker()) || state == CommentState::InBlockComment
}

/// What one line adds to the output: itself and a line feed where it is kept
/// as it stands, else its trimmed text and a line feed, and nothing where
/// that text is empty.
pub open spec fn emitted(line: Seq<char>, state: CommentState) -> Seq<char> {
    if kept_verbatim(line, state) {
        line.push('\n')
    } else if trimmed(line).len() > 0 {
        trimmed(line).push('\n')
    } else {
        Seq::empty()
    }
}

/// The state after a line: outside a comment where the line holds the
/// closing marker, inside where it holds only the opening one, unchanged
/// where it holds neither. Only whether a marker occurs counts, not where.
pub open spec fn state_after(line: Seq<char>, state: CommentState) -> CommentState {
    if contains(line, block_close_marker()) {
        CommentState::Normal
    } else if contains(line, block_open_marker()) {
        CommentState::InBlockComment
    } else {
        state
    }
}

/// What a run of lines adds to the output, read from `state` on.
pub open spec fn emitted_lines(lines: Seq<Seq<char>>, state: CommentState) -> Seq<char>
    decreases lines.len(),
{
    if lines.len() == 0 {
        Seq::empty()
    } else {
        emitted(lines[0], state) + emitted_lines(lines.drop_first(), state_after(lines[0], state))
    }
}

/// The state after a run of lines, read from `state` on.
pub open spec fn state_after_lines(lines: Seq<Seq<char>>, state: CommentState) -> CommentState
    decreases lines.len(),
{
    if lines.len() == 0 {
        state
    } else {
        state_after_lines(lines.drop_first(), state_after(lines[0], state))
    }
}

/// A script with its comments kept: blank lines dropped, other lines trimmed,
/// comment lines as they stand.
pub open spec fn comments_kept(code: Seq<char>) -> Seq<char> {
    emitted_lines(lines_of(code), CommentState::Normal)
}

/// A style sheet after the style minifier, or as it is where the minifier
/// refuses it or it is too long to hand over.
pub open spec fn style_minified(code: Seq<char>) -> Seq<char> {
    if code.len() <= MAX_SOURCE_CHARS {
        match minified_style(code) {
            Some(text) => text,
            None => code,
        }
    } else {
        code
    }
}

/// A script after the token minifier, or as it is where it is not handed
/// over.
pub open spec fn script_minified(code: Seq<char>) -> Seq<char> {
    if script_minifiable(code) {
        minified_script(code)
    } else {
        code
    }
}

/// Whether a file type is the one of style sheets.
pub open spec fn is_style(file_type: Seq<char>) -> bool {
    file_type == seq!['c', 's', 's']
}

/// The minified text of a file of the given type.
pub open spec fn minified(code: Seq<char>, retain_comments: bool, file_type: Seq<char>) -> Seq<
    char,
> {
    if is_style(file_type) {
        style_minified(code)
    } else if retain_comments {
        comments_kept(code)
    } else {
        script_minified(code)
    }
}

/// Reading one run of lines and then another adds what each adds in turn,
/// the second read from the state that the first leaves.
pub proof fn lemma_emitted_lines_concat(
    first: Seq<Seq<char>>,
    second: Seq<Seq<char>>,
    state: CommentState,
)
    ensures
        emitted_lines(first + second, state) == emitted_lines(first, state) + emitted_lines(
            second,
            state_after_lines(first, state),
        ),
        state_after_lines(first + second, state) == state_after_lines(
            second,
            state_after_lines(first, state),
        ),
    decreases first.len(),
{
    if first.len() == 0 {
        assert(first + second == second);
    } else {
        assert((first + second).drop_first() == first.drop_first() + second);
        lemma_emitted_lines_concat(first.drop_first(), second, state_after(first[0], state));
    }
}

/// A script can be cut after any of its line feeds: the part after the cut,
/// read from the state that the part before it leaves, adds the rest of the
/// output.
pub proof fn lemma_minify_in_two_parts(first: Seq<char>, second: Seq<char>, state: CommentState)
    requires
        first.len() > 0 ==> first.last() == '\n',
    ensures
        emitted_lines(lines_of(first + second), state) == emitted_lines(lines_of(first), state)
            + emitted_lines(lines_of(second), state_after_lines(lines_of(first), state)),
        state_after_lines(lines_of(first + second), state) == state_after_lines(
            lines_of(second),
            state_after_lines(lines_of(first), state),
        ),
{
    lemma_lines_concat(first, second);
    lemma_emitted_lines_concat(lines_of(first), lines_of(second), state);
}

/// Appends to `out` what `line` adds when read in `state`, and returns the
/// state after it.
pub fn emit_line(line: &Vec<char>, state: CommentState, out: &mut String) -> (next: CommentState)
    ensures
        final(out)@ == old(out)@ + emitted(line@, state),
        next == state_after(line@, state),
{
    let (a, b) = trim_bounds(line);
    let is_comment = b - a >= 2 && line[a] == '/' && line[a + 1] == '/';
    proof {
        let t = trimmed(line@);
        if is_comment {
            assert(t.subrange(0, 2) == line_comment_marker());
        } else if starts_with(t, line_comment_marker()) {
            assert(t.subrange(0, 2)[0] == '/' && t.subrange(0, 2)[1] == '/');
            assert(t[0] == line@[a as int] && t[1] == line@[a + 1]);
        }
    }
    if is_comment || state == CommentState::InBlockComment {
        push_chars(out, line, 0, line.len());
        out.push('\n');
        assert(line@.subrange(0, line.len() as int) == line@);
        assert(out@ == old(out)@ + line@.push('\n'));
    } else if b > a {
        push_chars(out, line, a, b);
        out.push('\n');
        assert(out@ == old(out)@ + trimmed(line@).push('\n'));
    } else {
        assert(out@ == old(out)@ + Seq::<char>::empty());
    }
    if has_pair(line, '*', '/') {
        CommentState::Normal
    } else if has_pair(line, '/', '*') {
        CommentState::InBlockComment
    } else {
        state
    }
}

/// What one line adds to the output when read in `state`, and the state
/// after it.
pub fn minify_line(line: &str, state: CommentState) -> (r: (String, CommentState))
    ensures
        r.0@ == emitted(line@, state),
        r.1 == state_after(line@, state),
{
    let chars = chars_of(line);
    let mut out = String::new();
    let next = emit_line(&chars, state, &mut out);
    assert(Seq::<char>::empty() + emitted(line@, state) == emitted(line@, state));
    (out, next)
}

/// What the lines of `code` add to the output when read from `state` on,
/// and the state after the last of them.
pub fn minify_lines(code: &str, state: CommentState) -> (r: (String, CommentState))
    ensures
        r.0@ == emitted_lines(lines_of(code@), state),
        r.1 == state_after_lines(lines_of(code@), state),
{
    let chars = chars_of(code);
    let lines = split_lines(&chars);
    let mut out = String::new();
    let mut current = state;
    let mut i: usize = 0;
    let ghost all = views_of(lines@);
    assert(all.skip(0) == all);
    assert(Seq::<char>::empty() + emitted_lines(all, state) == emitted_lines(all, state));
    while i < lines.len()
        invariant
            i <= lines.len(),
            all == views_of(lines@),
            out@ + emitted_lines(all.skip(i as int), current) == emitted_lines(all, state),
            state_after_lines(all.skip(i as int), current) == state_after_lines(all, state),
        decreases lines.len() - i,
    {
        let ghost rest = all.skip(i as int);
        let ghost before = out@;
        assert(rest[0] == lines@[i as int]@);
        assert(rest.drop_first() == all.skip(i + 1));
        let ghost read_in = current;
        current = emit_line(&lines[i], current, &mut out);
        assert(out@ + emitted_lines(all.skip(i + 1), current) == before + (emitted(
            rest[0],
            read_in,
        ) + emitted_lines(all.skip(i + 1), current)));
        i += 1;
    }
    assert(emitted_lines(all.skip(lines.len() as int), current) == Seq::<char>::empty());
    assert(out@ + Seq::<char>::empty() == out@);
    (out, current)
}

/// A script with its comments kept.
pub fn minify_keeping_comments(code: &str) -> (out: String)
    ensures
        out@ == comments_kept(code@),
{
    minify_lines(code, CommentState::Normal).0
}

/// The text that stands for a style sheet, given what the style minifier
/// made of it: the minified text, or the sheet itself where there is none.
pub fn style_or_unchanged(code: &str, outcome: Option<String>) -> (out: String)
    ensures
        out@ == match outcome {
            Some(text) => text@,
            None => code@,
        },
{
    match outcome {
        Some(text) => text,
        None => code.to_owned(),
    }
}

/// A style sheet after the style minifier, or as it is where the minifier
/// refuses it.
pub fn minify_style(code: &str) -> (out: String)
    ensures
        out@ == style_minified(code@),
{
    if code.unicode_len() <= MAX_SOURCE_CHARS {
        let outcome = run_style_minifier(code);
        style_or_unchanged(code, outcome)
    } else {
        code.to_owned()
    }
}

/// A script after the token minifier, or as it is where `script_minifiable`
/// does not admit it.
pub fn minify_script(code: &str) -> (out: String)
    ensures
        out@ == script_minified(code@),
{
    let chars = chars_of(code);
    if is_script_minifiable(&chars) {
        run_script_minifier(code)
    } else {
        code.to_owned()
    }
}

/// Whether `file_type` names style sheets.
pub fn is_style_type(file_type: &str) -> (b: bool)
    ensures
        b == is_style(file_type@),
{
    let t = chars_of(file_type);
    let b = t.len() == 3 && t[0] == 'c' && t[1] == 's' && t[2] == 's';
    assert(b ==> t@ =~= seq!['c', 's', 's']);
    b
}

/// The minified text of a file: a style sheet goes to the style minifier; a
/// script is read line by line where comments are kept, and goes to the token
/// minifier where they are not.
pub fn minify_code(code: &str, retain_comments: bool, file_type: &str) -> (out: String)
    ensures
        out@ == minified(code@, retain_comments, file_type@),
{
    if is_style_type(file_type) {
        minify_style(code)
    } else if retain_comments {
        minify_keeping_comments(code)
    } else {
        minify_script(code)
    }
}

} // verus!
