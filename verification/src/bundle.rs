//! The bundler: from the files that a walk of the source directory visited
//! to one text of labelled sections, with its counts.

use crate::filter::{accepted, extension, extension_of, is_listed};
use crate::minify::{minified, minify_code};
use crate::text::{chars_of, push_chars, texts_of};
use vstd::prelude::*;
use vstd::string::StrSliceExecFns;
use vstd::string::StringSliceAdditionalSpecFns;
use vstd::utf8::encode_utf8;

verus! {

/// A regular file that the walk visited.
pub struct SourceFile {
    /// The names on the way from the root directory to the file, the file's
    /// own name last.
    pub components: Vec<String>,
    /// What the file holds, or `None` where it could not be read as text.
    pub content: Option<String>,
}

/// A visited file as plain values.
pub struct SourceFileView {
    pub components: Seq<Seq<char>>,
    pub content: Option<Seq<char>>,
}

impl View for SourceFile {
    type V = SourceFileView;

    open spec fn view(&self) -> SourceFileView {
        SourceFileView {
            components: texts_of(self.components@),
            content: match self.content {
                Some(text) => Some(text@),
                None => None,
            },
        }
    }
}

/// What the walk found: no root directory, or the regular files below it in
/// the order of the walk.
pub enum Listing {
    Missing,
    Found(Vec<SourceFile>),
}

/// Why no bundle was made.
#[derive(Clone, Copy, Debug, PartialEq, Eq, Structural)]
pub enum BundleError {
    /// The root directory does not exist.
    DirectoryNotFound,
}

/// Why a visited file got no section.
#[derive(Clone, Copy, Debug, PartialEq, Eq, Structural)]
pub enum SkipReason {
    /// The file has no extension, or one that is not among those asked for.
    ExtensionNotListed,
    /// The file could not be read as text.
    Unreadable,
}

/// A visited file that got no section.
#[derive(Debug, PartialEq, Eq)]
pub struct Skipped {
    /// The path of the file below the root, its components joined by `/`.
    pub path: String,
    pub reason: SkipReason,
}

/// A file that got no section, as plain values.
pub struct SkippedView {
    pub path: Seq<char>,
    pub reason: SkipReason,
}

impl View for Skipped {
    type V = SkippedView;

    open spec fn view(&self) -> SkippedView {
        SkippedView { path: self.path@, reason: self.reason }
    }
}

/// One section of a bundle: the label of a file and its minified content.
pub struct Section {
    pub label: Seq<char>,
    pub content: Seq<char>,
}

/// One file on its way into the bundle: its path below the root, its
/// minified content, and the number of characters of that content.
pub struct FileRecord {
    relative_path: String,
    content: String,
    char_count: usize,
}

/// A bundle: the text of its sections, the two counts, and the files that
/// were passed over.
pub struct Bundle {
    text: String,
    total_files: usize,
    total_chars: usize,
    skipped: Vec<Skipped>,
    sections: Ghost<Seq<Section>>,
}

/// A bundle as plain values.
pub struct BundleView {
    pub sections: Seq<Section>,
    pub text: Seq<char>,
    pub total_files: nat,
    pub total_chars: nat,
    pub skipped: Seq<SkippedView>,
}

/// The skipped files of a vector as plain values.
pub open spec fn skips_of(skipped: Seq<Skipped>) -> Seq<SkippedView> {
    Seq::new(skipped.len(), |i: int| skipped[i]@)
}

/// The files of a vector as plain values.
pub open spec fn files_of(files: Seq<SourceFile>) -> Seq<SourceFileView> {
    Seq::new(files.len(), |i: int| files[i]@)
}

/// `parts` written one after the other with `sep` between them.
pub open spec fn joined(parts: Seq<Seq<char>>, sep: char) -> Seq<char>
    decreases parts.len(),
{
    if parts.len() == 0 {
        Seq::empty()
    } else if parts.len() == 1 {
        parts[0]
    } else {
        joined(parts.drop_last(), sep).push(sep) + parts.last()
    }
}

/// The line that opens and closes a section.
pub open spec fn fence() -> Seq<char> {
    seq!['`', '`', '`']
}

/// The text of a section: the fence, a space and the label on one line, the
/// content, and the fence on a line of its own.
pub open spec fn section_text(section: Section) -> Seq<char> {
    fence().push(' ') + section.label.push('\n') + section.content.push('\n') + fence().push('\n')
}

/// The text of a bundle: its sections one after the other.
pub open spec fn rendered(sections: Seq<Section>) -> Seq<char>
    decreases sections.len(),
{
    if sections.len() == 0 {
        Seq::empty()
    } else {
        rendered(sections.drop_last()) + section_text(sections.last())
    }
}

/// The characters of minified content in all sections together.
pub open spec fn chars_in(sections: Seq<Section>) -> nat
    decreases sections.len(),
{
    if sections.len() == 0 {
        0
    } else {
        chars_in(sections.drop_last()) + sections.last().content.len()
    }
}

/// Whether a visited file gets a section: it has a name with an extension
/// among `extensions`, and it could be read.
pub open spec fn qualifies(file: SourceFileView, extensions: Seq<Seq<char>>) -> bool {
    &&& file.components.len() > 0
    &&& accepted(file.components.last(), extensions)
    &&& file.content is Some
}

/// The section of a file that qualifies: its components joined by `/`, and
/// its content minified as a file of its extension.
pub open spec fn section_of(file: SourceFileView, retain_comments: bool) -> Section {
    Section {
        label: joined(file.components, '/'),
        content: minified(
            file.content.unwrap(),
            retain_comments,
            extension_of(file.components.last()).unwrap(),
        ),
    }
}

/// The sections of a bundle of `files`: one for each file that qualifies, in
/// the order of the files.
pub open spec fn sections_of(
    files: Seq<SourceFileView>,
    extensions: Seq<Seq<char>>,
    retain_comments: bool,
) -> Seq<Section>
    decreases files.len(),
{
    if files.len() == 0 {
        Seq::empty()
    } else if qualifies(files.last(), extensions) {
        sections_of(files.drop_last(), extensions, retain_comments).push(
            section_of(files.last(), retain_comments),
        )
    } else {
        sections_of(files.drop_last(), extensions, retain_comments)
    }
}

/// Why a file that does not qualify is passed over: for its extension
/// first, and only then for what could not be read.
pub open spec fn skip_reason(file: SourceFileView, extensions: Seq<Seq<char>>) -> SkipReason {
    if file.components.len() > 0 && accepted(file.components.last(), extensions) {
        SkipReason::Unreadable
    } else {
        SkipReason::ExtensionNotListed
    }
}

/// The files that a bundle of `files` passes over, in the order of the
/// files, each with its reason.
pub open spec fn skipped_of(files: Seq<SourceFileView>, extensions: Seq<Seq<char>>) -> Seq<
    SkippedView,
>
    decreases files.len(),
{
    if files.len() == 0 {
        Seq::empty()
    } else if qualifies(files.last(), extensions) {
        skipped_of(files.drop_last(), extensions)
    } else {
        skipped_of(files.drop_last(), extensions).push(
            SkippedView {
                path: joined(files.last().components, '/'),
                reason: skip_reason(files.last(), extensions),
            },
        )
    }
}

/// What `bundle` owes for a listing: the error where the root is missing,
/// else a bundle of the sections of the files found, which names the files
/// that it passed over.
pub open spec fn bundled(
    result: Result<Bundle, BundleError>,
    listing: Listing,
    extensions: Seq<Seq<char>>,
    retain_comments: bool,
) -> bool {
    match listing {
        Listing::Missing => result == Err::<Bundle, BundleError>(BundleError::DirectoryNotFound),
        Listing::Found(files) => {
            &&& result is Ok
            &&& result.unwrap().wf()
            &&& result.unwrap()@.sections == sections_of(
                files_of(files@),
                extensions,
                retain_comments,
            )
            &&& result.unwrap()@.skipped == skipped_of(files_of(files@), extensions)
        },
    }
}

/// A text is at most as long in characters as in bytes.
pub proof fn lemma_chars_fit_bytes(chars: Seq<char>)
    ensures
        chars.len() <= encode_utf8(chars).len(),
    decreases chars.len(),
{
    if chars.len() > 0 {
        lemma_chars_fit_bytes(chars.drop_first());
    }
}

/// The text of a bundle holds all minified content and ten characters more
/// for each section.
pub proof fn lemma_rendered_len(sections: Seq<Section>)
    ensures
        rendered(sections).len() >= chars_in(sections) + 10 * sections.len(),
    decreases sections.len(),
{
    if sections.len() > 0 {
        lemma_rendered_len(sections.drop_last());
    }
}

/// The sections of two runs of files are those of the first followed by those
/// of the second.
pub proof fn lemma_sections_concat(
    first: Seq<SourceFileView>,
    second: Seq<SourceFileView>,
    extensions: Seq<Seq<char>>,
    retain_comments: bool,
)
    ensures
        sections_of(first + second, extensions, retain_comments) == sections_of(
            first,
            extensions,
            retain_comments,
        ) + sections_of(second, extensions, retain_comments),
    decreases second.len(),
{
    if second.len() == 0 {
        assert(first + second == first);
    } else {
        assert((first + second).drop_last() == first + second.drop_last());
        lemma_sections_concat(first, second.drop_last(), extensions, retain_comments);
    }
}

/// A file whose name has no extension among `extensions` gets no section:
/// the bundle is the same with the file and without it, wherever it stands.
pub proof fn lemma_unlisted_file_left_out(
    before: Seq<SourceFileView>,
    file: SourceFileView,
    after: Seq<SourceFileView>,
    extensions: Seq<Seq<char>>,
    retain_comments: bool,
)
    requires
        file.components.len() > 0 ==> !accepted(file.components.last(), extensions),
    ensures
        sections_of(before.push(file) + after, extensions, retain_comments) == sections_of(
            before + after,
            extensions,
            retain_comments,
        ),
{
    lemma_sections_concat(before.push(file), after, extensions, retain_comments);
    lemma_sections_concat(before, after, extensions, retain_comments);
    assert(before.push(file).drop_last() == before);
}

/// Whether `section` is the section of one of `files` that qualifies.
pub open spec fn from_files(
    section: Section,
    files: Seq<SourceFileView>,
    extensions: Seq<Seq<char>>,
    retain_comments: bool,
) -> bool {
    exists|j: int|
        0 <= j < files.len() && qualifies(#[trigger] files[j], extensions) && section
            == section_of(files[j], retain_comments)
}

/// Every section of a bundle is the section of a file that was visited, that
/// has an extension among `extensions`, and that could be read.
pub proof fn lemma_sections_have_sources(
    files: Seq<SourceFileView>,
    extensions: Seq<Seq<char>>,
    retain_comments: bool,
)
    ensures
        forall|i: int|
            0 <= i < sections_of(files, extensions, retain_comments).len() ==> from_files(
                #[trigger] sections_of(files, extensions, retain_comments)[i],
                files,
                extensions,
                retain_comments,
            ),
    decreases files.len(),
{
    let all = sections_of(files, extensions, retain_comments);
    if files.len() > 0 {
        let rest = files.drop_last();
        let fewer = sections_of(rest, extensions, retain_comments);
        lemma_sections_have_sources(rest, extensions, retain_comments);
        assert forall|i: int| 0 <= i < all.len() implies from_files(
            #[trigger] all[i],
            files,
            extensions,
            retain_comments,
        ) by {
            if i < fewer.len() {
                assert(from_files(fewer[i], rest, extensions, retain_comments));
                let j = choose|j: int|
                    0 <= j < rest.len() && qualifies(#[trigger] rest[j], extensions) && fewer[i]
                        == section_of(rest[j], retain_comments);
                assert(files[j] == rest[j]);
            } else {
                assert(qualifies(files[files.len() - 1], extensions));
            }
        }
    }
}

/// Two runs on the same listing with the same settings give the same text,
/// the same counts and the same sections.
pub proof fn lemma_bundle_deterministic(
    first: Result<Bundle, BundleError>,
    second: Result<Bundle, BundleError>,
    listing: Listing,
    extensions: Seq<Seq<char>>,
    retain_comments: bool,
)
    requires
        bundled(first, listing, extensions, retain_comments),
        bundled(second, listing, extensions, retain_comments),
    ensures
        first is Ok <==> second is Ok,
        first is Err ==> first == second,
        first is Ok ==> first.unwrap()@ == second.unwrap()@,
{
}

impl View for FileRecord {
    type V = Section;

    closed spec fn view(&self) -> Section {
        Section { label: self.relative_path@, content: self.content@ }
    }
}

impl FileRecord {
    #[verifier::type_invariant]
    spec fn counted(&self) -> bool {
        self.char_count == self.content@.len()
    }

    /// The record of a file with this path below the root and this minified
    /// content.
    pub fn new(relative_path: String, content: String) -> (record: FileRecord)
        ensures
            record@ == (Section { label: relative_path@, content: content@ }),
    {
        let char_count = content.as_str().unicode_len();
        FileRecord { relative_path, content, char_count }
    }

    /// The path of the file below the root.
    pub fn relative_path(&self) -> (path: &String)
        ensures
            path@ == self@.label,
    {
        &self.relative_path
    }

    /// The minified content of the file.
    pub fn content(&self) -> (content: &String)
        ensures
            content@ == self@.content,
    {
        &self.content
    }

    /// The number of characters of the minified content.
    pub fn char_count(&self) -> (count: usize)
        ensures
            count == self@.content.len(),
    {
        proof {
            use_type_invariant(self);
        }
        self.char_count
    }
}

impl View for Bundle {
    type V = BundleView;

    closed spec fn view(&self) -> BundleView {
        BundleView {
            sections: self.sections@,
            text: self.text@,
            total_files: self.total_files as nat,
            total_chars: self.total_chars as nat,
            skipped: skips_of(self.skipped@),
        }
    }
}

impl Bundle {
    /// The text is that of the sections, the files are counted one for each
    /// section, and the characters are those of the minified content of all
    /// sections.
    pub open spec fn wf(&self) -> bool {
        &&& self@.text == rendered(self@.sections)
        &&& self@.total_files == self@.sections.len()
        &&& self@.total_chars == chars_in(self@.sections)
    }

    /// The bundle of no file.
    pub fn new() -> (bundle: Bundle)
        ensures
            bundle.wf(),
            bundle@.sections == Seq::<Section>::empty(),
            bundle@.skipped == Seq::<SkippedView>::empty(),
    {
        Bundle {
            text: String::new(),
            total_files: 0,
            total_chars: 0,
            skipped: Vec::new(),
            sections: Ghost(Seq::empty()),
        }
    }

    /// Appends the section of `record` and counts it.
    pub fn add(&mut self, record: &FileRecord)
        requires
            old(self).wf(),
        ensures
            final(self).wf(),
            final(self)@.sections == old(self)@.sections.push(record@),
            final(self)@.skipped == old(self)@.skipped,
    {
        let count = record.char_count();
        push_section(&mut self.text, record.relative_path().as_str(), record.content().as_str());
        let ghost sections = self.sections@.push(record@);
        self.sections = Ghost(sections);
        let bytes = self.text.as_str().as_bytes();
        let len = bytes.len();
        proof {
            assert(sections.drop_last() == old(self)@.sections);
            lemma_rendered_len(sections);
            lemma_chars_fit_bytes(self.text@);
            assert(bytes@ == encode_utf8(self.text@));
        }
        self.total_files = self.total_files + 1;
        self.total_chars = self.total_chars + count;
    }

    /// Notes a file that is passed over.
    pub fn skip(&mut self, path: String, reason: SkipReason)
        requires
            old(self).wf(),
        ensures
            final(self).wf(),
            final(self)@.sections == old(self)@.sections,
            final(self)@.skipped == old(self)@.skipped.push(SkippedView { path: path@, reason }),
    {
        self.skipped.push(Skipped { path, reason });
        assert(skips_of(self.skipped@) == skips_of(old(self).skipped@).push(
            SkippedView { path: path@, reason },
        ));
    }

    /// The files that were passed over, in the order of the walk.
    pub fn skipped(&self) -> (skipped: &Vec<Skipped>)
        ensures
            skips_of(skipped@) == self@.skipped,
    {
        &self.skipped
    }

    /// The text of the bundle.
    pub fn text(&self) -> (text: &String)
        ensures
            text@ == self@.text,
    {
        &self.text
    }

    /// The text of the bundle, which is given up for it.
    pub fn into_text(self) -> (text: String)
        ensures
            text@ == self@.text,
    {
        self.text
    }

    /// The number of files in the bundle.
    pub fn total_files(&self) -> (count: usize)
        ensures
            count == self@.total_files,
    {
        self.total_files
    }

    /// The number of characters of minified content in the bundle.
    pub fn total_chars(&self) -> (count: usize)
        ensures
            count == self@.total_chars,
    {
        self.total_chars
    }
}

/// Appends the text of one section to `text`.
pub fn push_section(text: &mut String, label: &str, content: &str)
    ensures
        final(text)@ == old(text)@ + section_text(Section { label: label@, content: content@ }),
{
    let label_chars = chars_of(label);
    let content_chars = chars_of(content);
    text.push('`');
    text.push('`');
    text.push('`');
    text.push(' ');
    push_chars(text, &label_chars, 0, label_chars.len());
    text.push('\n');
    push_chars(text, &content_chars, 0, content_chars.len());
    text.push('\n');
    text.push('`');
    text.push('`');
    text.push('`');
    text.push('\n');
    proof {
        assert(label_chars@.subrange(0, label_chars.len() as int) == label@);
        assert(content_chars@.subrange(0, content_chars.len() as int) == content@);
        assert(text@ == old(text)@ + section_text(Section { label: label@, content: content@ }));
    }
}

/// The label of a file: its components joined by `/`.
pub fn label_of(components: &Vec<String>) -> (label: String)
    ensures
        label@ == joined(texts_of(components@), '/'),
{
    let ghost parts = texts_of(components@);
    let mut label = String::new();
    let mut i: usize = 0;
    while i < components.len()
        invariant
            i <= components.len(),
            parts == texts_of(components@),
            label@ == joined(parts.take(i as int), '/'),
        decreases components.len() - i,
    {
        let part = chars_of(components[i].as_str());
        if i > 0 {
            label.push('/');
        }
        push_chars(&mut label, &part, 0, part.len());
        proof {
            assert(part@.subrange(0, part.len() as int) == parts[i as int]);
            assert(parts.take(i + 1).drop_last() == parts.take(i as int));
            assert(parts.take(i + 1).last() == parts[i as int]);
            if i == 0 {
                assert(Seq::<char>::empty() + parts[0] == parts[0]);
            }
        }
        i += 1;
    }
    assert(parts.take(components.len() as int) == parts);
    label
}

/// The record of a visited file, or the reason why it gets no section.
pub fn record_of(file: &SourceFile, extensions: &Vec<String>, retain_comments: bool) -> (out:
    Result<FileRecord, SkipReason>)
    ensures
        match out {
            Ok(record) => qualifies(file@, texts_of(extensions@)) && record@ == section_of(
                file@,
                retain_comments,
            ),
            Err(reason) => !qualifies(file@, texts_of(extensions@)) && reason == skip_reason(
                file@,
                texts_of(extensions@),
            ),
        },
{
    let n = file.components.len();
    if n == 0 {
        return Err(SkipReason::ExtensionNotListed);
    }
    let found = extension(file.components[n - 1].as_str());
    assert(file@.components.last() == file.components@[n - 1]@);
    match found {
        Some(file_type) => {
            if !is_listed(&file_type, extensions) {
                return Err(SkipReason::ExtensionNotListed);
            }
            match &file.content {
                Some(code) => {
                    let content = minify_code(code.as_str(), retain_comments, file_type.as_str());
                    let label = label_of(&file.components);
                    Ok(FileRecord::new(label, content))
                },
                None => Err(SkipReason::Unreadable),
            }
        },
        None => Err(SkipReason::ExtensionNotListed),
    }
}

/// The bundle of `files`, read in their order.
pub fn bundle_files(files: &Vec<SourceFile>, extensions: &Vec<String>, retain_comments: bool) -> (out:
    Bundle)
    ensures
        out.wf(),
        out@.sections == sections_of(files_of(files@), texts_of(extensions@), retain_comments),
        out@.skipped == skipped_of(files_of(files@), texts_of(extensions@)),
{
    let ghost all = files_of(files@);
    let ghost listed = texts_of(extensions@);
    let mut out = Bundle::new();
    let mut i: usize = 0;
    while i < files.len()
        invariant
            i <= files.len(),
            all == files_of(files@),
            listed == texts_of(extensions@),
            out.wf(),
            out@.sections == sections_of(all.take(i as int), listed, retain_comments),
            out@.skipped == skipped_of(all.take(i as int), listed),
        decreases files.len() - i,
    {
        proof {
            assert(all.take(i + 1).drop_last() == all.take(i as int));
            assert(all.take(i + 1).last() == files@[i as int]@);
        }
        match record_of(&files[i], extensions, retain_comments) {
            Ok(record) => {
                out.add(&record);
            },
            Err(reason) => {
                out.skip(label_of(&files[i].components), reason);
            },
        }
        i += 1;
    }
    assert(all.take(files.len() as int) == all);
    out
}

/// The bundle of what a walk found; the error `DirectoryNotFound` where the
/// root directory is missing.
pub fn bundle(listing: &Listing, extensions: &Vec<String>, retain_comments: bool) -> (result:
    Result<Bundle, BundleError>)
    ensures
        bundled(result, *listing, texts_of(extensions@), retain_comments),
{
    match listing {
        Listing::Missing => Err(BundleError::DirectoryNotFound),
        Listing::Found(files) => Ok(bundle_files(files, extensions, retain_comments)),
    }
}

} // verus!
