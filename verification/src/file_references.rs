//! Safe expansion of bare, CWD-relative `@path` prompt references.
//!
//! The file system is left to the caller, who goes through the references of a prompt one by one:
//! `candidate` gives the path to canonicalize, `check_path` judges the canonical path before
//! anything is opened, `check_file` judges the opened file before anything is read. `resolve` judges
//! all of it again on what was found, and either expands every reference or refuses the prompt.

use vstd::prelude::*;
use vstd::slice::slice_subrange;
use vstd::string::*;
use vstd::utf8::{decode_utf8, valid_utf8};

use crate::config::default_config_path;
use crate::path::{
    absolute, base_len, contains_parent_component, has_parent_component, is_absolute, is_neutral,
    join, joined, last_component_start, lemma_last_component_start, parent, parent_of, stripped,
};
use crate::text::{
    chars_of, concatenation, debug_quoted, is_whitespace, lemma_concatenation_grows,
    lemma_split_after_whitespace_is_lossless, lemma_word_len, lemma_word_len_is, quoted,
    split, split_after_whitespace, split_keeping_whitespace, starts_with, text_of, trim_end, views, whitespace,
    word_len,
};

verus! {

/// The largest file that a reference may expand to.
pub const MAX_FILE_BYTES: u64 = 1048576;

/// Why a prompt with file references is refused.
#[derive(Debug, PartialEq, Eq)]
pub enum FileReferenceError {
    CurrentDirectory,
    Root { path: String },
    NotRelative { reference: String },
    ParentDirectory { reference: String },
    Canonicalize { reference: String },
    OutsideWorkingDirectory { reference: String },
    Protected { reference: String },
    NotRegular { reference: String },
    TooLarge { reference: String },
    Read { reference: String },
    NotUtf8 { reference: String },
}

/// The mathematical counterpart of `FileReferenceError`.
pub enum FileReferenceErrorView {
    CurrentDirectory,
    Root { path: Seq<char> },
    NotRelative { reference: Seq<char> },
    ParentDirectory { reference: Seq<char> },
    Canonicalize { reference: Seq<char> },
    OutsideWorkingDirectory { reference: Seq<char> },
    Protected { reference: Seq<char> },
    NotRegular { reference: Seq<char> },
    TooLarge { reference: Seq<char> },
    Read { reference: Seq<char> },
    NotUtf8 { reference: Seq<char> },
}

impl View for FileReferenceError {
    type V = FileReferenceErrorView;

    open spec fn view(&self) -> FileReferenceErrorView {
        match self {
            FileReferenceError::CurrentDirectory => FileReferenceErrorView::CurrentDirectory,
            FileReferenceError::Root { path } => FileReferenceErrorView::Root { path: path@ },
            FileReferenceError::NotRelative { reference } => FileReferenceErrorView::NotRelative {
                reference: reference@,
            },
            FileReferenceError::ParentDirectory { reference } =>
                FileReferenceErrorView::ParentDirectory { reference: reference@ },
            FileReferenceError::Canonicalize { reference } => FileReferenceErrorView::Canonicalize {
                reference: reference@,
            },
            FileReferenceError::OutsideWorkingDirectory { reference } =>
                FileReferenceErrorView::OutsideWorkingDirectory { reference: reference@ },
            FileReferenceError::Protected { reference } => FileReferenceErrorView::Protected {
                reference: reference@,
            },
            FileReferenceError::NotRegular { reference } => FileReferenceErrorView::NotRegular {
                reference: reference@,
            },
            FileReferenceError::TooLarge { reference } => FileReferenceErrorView::TooLarge {
                reference: reference@,
            },
            FileReferenceError::Read { reference } => FileReferenceErrorView::Read {
                reference: reference@,
            },
            FileReferenceError::NotUtf8 { reference } => FileReferenceErrorView::NotUtf8 {
                reference: reference@,
            },
        }
    }
}

/// What an error says about a reference.
pub open spec fn about_reference(reference: Seq<char>, rest: Seq<char>) -> Seq<char> {
    "file reference "@ + debug_quoted(reference) + rest
}

/// The message that an error shows.
pub open spec fn reference_error_message(error: FileReferenceErrorView) -> Seq<char> {
    match error {
        FileReferenceErrorView::CurrentDirectory =>
            "could not resolve the current working directory"@,
        FileReferenceErrorView::Root { path } => "could not resolve file-reference root "@ + path,
        FileReferenceErrorView::NotRelative { reference } => about_reference(
            reference,
            " must be relative to the current working directory"@,
        ),
        FileReferenceErrorView::ParentDirectory { reference } => about_reference(
            reference,
            " must not contain `..`"@,
        ),
        FileReferenceErrorView::Canonicalize { reference } => "could not resolve file reference "@
            + debug_quoted(reference),
        FileReferenceErrorView::OutsideWorkingDirectory { reference } => about_reference(
            reference,
            " resolves outside the current working directory"@,
        ),
        FileReferenceErrorView::Protected { reference } => about_reference(
            reference,
            " is protected"@,
        ),
        FileReferenceErrorView::NotRegular { reference } => about_reference(
            reference,
            " is not a regular file"@,
        ),
        FileReferenceErrorView::TooLarge { reference } => about_reference(
            reference,
            " exceeds the 1 MiB limit"@,
        ),
        FileReferenceErrorView::Read { reference } => "could not read file reference "@
            + debug_quoted(reference),
        FileReferenceErrorView::NotUtf8 { reference } => about_reference(
            reference,
            " is not valid UTF-8"@,
        ),
    }
}

fn say_about(reference: &str, rest: &str) -> (text: String)
    ensures
        text@ == about_reference(reference@, rest@),
{
    let mut text = "file reference ".to_owned();
    text.append(quoted(reference).as_str());
    text.append(rest);
    text
}

fn say_before(start: &str, reference: &str) -> (text: String)
    ensures
        text@ == start@ + debug_quoted(reference@),
{
    let mut text = start.to_owned();
    text.append(quoted(reference).as_str());
    text
}

impl FileReferenceError {
    /// The message shown to the user.
    pub fn message(&self) -> (text: String)
        ensures
            text@ == reference_error_message(self@),
    {
        match self {
            FileReferenceError::CurrentDirectory =>
                "could not resolve the current working directory".to_owned(),
            FileReferenceError::Root { path } => {
                let mut text = "could not resolve file-reference root ".to_owned();
                text.append(path.as_str());
                text
            },
            FileReferenceError::NotRelative { reference } => say_about(
                reference.as_str(),
                " must be relative to the current working directory",
            ),
            FileReferenceError::ParentDirectory { reference } => say_about(
                reference.as_str(),
                " must not contain `..`",
            ),
            FileReferenceError::Canonicalize { reference } => say_before(
                "could not resolve file reference ",
                reference.as_str(),
            ),
            FileReferenceError::OutsideWorkingDirectory { reference } => say_about(
                reference.as_str(),
                " resolves outside the current working directory",
            ),
            FileReferenceError::Protected { reference } => say_about(
                reference.as_str(),
                " is protected",
            ),
            FileReferenceError::NotRegular { reference } => say_about(
                reference.as_str(),
                " is not a regular file",
            ),
            FileReferenceError::TooLarge { reference } => say_about(
                reference.as_str(),
                " exceeds the 1 MiB limit",
            ),
            FileReferenceError::Read { reference } => say_before(
                "could not read file reference ",
                reference.as_str(),
            ),
            FileReferenceError::NotUtf8 { reference } => say_about(
                reference.as_str(),
                " is not valid UTF-8",
            ),
        }
    }
}

/// An absolute path without links, as the names of its components from the root on.
#[derive(Debug, PartialEq, Eq)]
pub struct CanonicalPath {
    pub components: Vec<Vec<u8>>,
}

impl View for CanonicalPath {
    type V = Seq<Seq<u8>>;

    open spec fn view(&self) -> Seq<Seq<u8>> {
        Seq::new(self.components@.len(), |i: int| self.components@[i]@)
    }
}

/// The path is the directory or lies below it.
pub open spec fn is_under(path: Seq<Seq<u8>>, directory: Seq<Seq<u8>>) -> bool {
    directory.len() <= path.len() && path.take(directory.len() as int) == directory
}

fn same_bytes(left: &Vec<u8>, right: &Vec<u8>) -> (same: bool)
    ensures
        same == (left@ == right@),
{
    if left.len() != right.len() {
        return false;
    }
    let mut i: usize = 0;
    while i < left.len()
        invariant
            i <= left@.len(),
            left@.len() == right@.len(),
            forall|j: int| 0 <= j < i ==> #[trigger] left@[j] == right@[j],
        decreases left@.len() - i,
    {
        if left[i] != right[i] {
            return false;
        }
        i += 1;
    }
    assert(left@ =~= right@);
    true
}

impl CanonicalPath {
    /// Whether the path is the directory or lies below it.
    pub fn lies_under(&self, directory: &CanonicalPath) -> (result: bool)
        ensures
            result == is_under(self@, directory@),
    {
        if directory.components.len() > self.components.len() {
            return false;
        }
        let mut i: usize = 0;
        while i < directory.components.len()
            invariant
                i <= directory.components@.len() <= self.components@.len(),
                forall|j: int| 0 <= j < i ==> #[trigger] self@[j] == directory@[j],
            decreases directory.components@.len() - i,
        {
            if !same_bytes(&self.components[i], &directory.components[i]) {
                assert(self@.take(directory@.len() as int)[i as int] != directory@[i as int]);
                return false;
            }
            assert(self@[i as int] == directory@[i as int]);
            i += 1;
        }
        assert(self@.take(directory@.len() as int) =~= directory@);
        true
    }

    /// Whether both are the same path.
    pub fn same(&self, other: &CanonicalPath) -> (result: bool)
        ensures
            result == (self@ == other@),
    {
        let result = self.components.len() == other.components.len() && self.lies_under(other);
        assert(self@.len() == other@.len() ==> self@.take(other@.len() as int) =~= self@);
        result
    }
}

/// What opening and reading a file gave.
#[derive(Debug, PartialEq, Eq)]
pub enum FileAccess {
    /// It could not be opened or inspected.
    Unreadable,
    Opened {
        is_file: bool,
        len: u64,
        /// The contents, up to one byte more than the limit, or `None` where reading failed.
        contents: Option<Vec<u8>>,
    },
}

/// What looking up the path of a reference gave.
#[derive(Debug, PartialEq, Eq)]
pub enum FileLookup {
    /// The path could not be canonicalized.
    Unresolved,
    Resolved { canonical: CanonicalPath, file: FileAccess },
}

/// The mathematical counterpart of `FileAccess`.
pub enum FileAccessView {
    Unreadable,
    Opened { is_file: bool, len: u64, contents: Option<Seq<u8>> },
}

/// The mathematical counterpart of `FileLookup`.
pub enum FileLookupView {
    Unresolved,
    Resolved { canonical: Seq<Seq<u8>>, file: FileAccessView },
}

impl View for FileAccess {
    type V = FileAccessView;

    open spec fn view(&self) -> FileAccessView {
        match self {
            FileAccess::Unreadable => FileAccessView::Unreadable,
            FileAccess::Opened { is_file, len, contents } => FileAccessView::Opened {
                is_file: *is_file,
                len: *len,
                contents: match contents {
                    Some(bytes) => Some(bytes@),
                    None => None,
                },
            },
        }
    }
}

impl View for FileLookup {
    type V = FileLookupView;

    open spec fn view(&self) -> FileLookupView {
        match self {
            FileLookup::Unresolved => FileLookupView::Unresolved,
            FileLookup::Resolved { canonical, file } => FileLookupView::Resolved {
                canonical: canonical@,
                file: file@,
            },
        }
    }
}

pub open spec fn lookup_views(lookups: Seq<FileLookup>) -> Seq<FileLookupView> {
    Seq::new(lookups.len(), |i: int| lookups[i]@)
}

/// `String::from_utf8` accepts exactly the byte sequences that are UTF-8, and decodes them.
#[verifier::external_body]
fn utf8_text(bytes: Vec<u8>) -> (text: Option<String>)
    ensures
        match text {
            Some(text) => valid_utf8(bytes@) && text@ == decode_utf8(bytes@),
            None => !valid_utf8(bytes@),
        },
{
    String::from_utf8(bytes).ok()
}

/// The escape for a character in a file block; the double quote has one inside an attribute only.
pub open spec fn escape(character: char, in_attribute: bool) -> Seq<char> {
    if character == '&' {
        "&amp;"@
    } else if character == '"' && in_attribute {
        "&quot;"@
    } else if character == '<' {
        "&lt;"@
    } else if character == '>' {
        "&gt;"@
    } else {
        seq![character]
    }
}

/// The text with every character escaped.
pub open spec fn escaped(text: Seq<char>, in_attribute: bool) -> Seq<char>
    decreases text.len(),
{
    if text.len() == 0 {
        Seq::empty()
    } else {
        escaped(text.drop_last(), in_attribute) + escape(text.last(), in_attribute)
    }
}

fn escape_text(value: &str, in_attribute: bool) -> (out: String)
    ensures
        out@ == escaped(value@, in_attribute),
{
    let mut out = String::new();
    assert(out@ =~= Seq::<char>::empty());
    for character in it: value.chars()
        invariant
            it.seq() == value@,
            out@ == escaped(value@.take(it.index()), in_attribute),
    {
        assert(value@.take(it.index() + 1).drop_last() =~= value@.take(it.index()));
        if character == '&' {
            out.append("&amp;");
        } else if character == '"' && in_attribute {
            out.append("&quot;");
        } else if character == '<' {
            out.append("&lt;");
        } else if character == '>' {
            out.append("&gt;");
        } else {
            let ghost before = out@;
            out.push(character);
            assert(out@ =~= before + seq![character]);
        }
    }
    assert(value@.take(value@.len() as int) =~= value@);
    out
}

/// The block that stands for a reference in the outbound prompt.
pub open spec fn file_block(reference: Seq<char>, contents: Seq<char>) -> Seq<char> {
    "<file path=\""@ + escaped(reference, true) + "\">\n"@ + escaped(contents, false)
        + "\n</file>"@
}

fn block(reference: &str, contents: &str) -> (out: String)
    ensures
        out@ == file_block(reference@, contents@),
{
    let mut out = "<file path=\"".to_owned();
    out.append(escape_text(reference, true).as_str());
    out.append("\">\n");
    out.append(escape_text(contents, false).as_str());
    out.append("\n</file>");
    out
}

/// The word is a file reference: an at-sign with something behind it.
pub open spec fn is_reference(word: Seq<char>) -> bool {
    word.len() > 1 && word[0] == '@'
}

/// The references among the first `n` segments of a prompt.
pub open spec fn references_in(segments: Seq<Seq<char>>, n: int) -> Seq<Seq<char>>
    decreases n,
{
    if n <= 0 {
        Seq::empty()
    } else if is_reference(trim_end(segments[n - 1])) {
        references_in(segments, n - 1).push(trim_end(segments[n - 1]))
    } else {
        references_in(segments, n - 1)
    }
}

/// The references of a prompt, in order.
pub open spec fn references_of(prompt: Seq<char>) -> Seq<Seq<char>> {
    let segments = split_after_whitespace(prompt);
    references_in(segments, segments.len() as int)
}

/// The mathematical counterpart of `FileReferenceResolver`.
pub struct ResolverView {
    pub cwd: Seq<Seq<u8>>,
    /// The path of the working directory.
    pub cwd_path: Seq<char>,
    pub protected_config: Option<Seq<Seq<u8>>>,
    pub protected_sessions: Option<Seq<Seq<u8>>>,
}

/// Resolves references within one canonical working directory.
pub struct FileReferenceResolver {
    cwd: CanonicalPath,
    cwd_path: String,
    protected_config: Option<CanonicalPath>,
    protected_sessions: Option<CanonicalPath>,
}

pub open spec fn option_path_view(path: Option<CanonicalPath>) -> Option<Seq<Seq<u8>>> {
    match path {
        Some(path) => Some(path@),
        None => None,
    }
}

impl View for FileReferenceResolver {
    type V = ResolverView;

    closed spec fn view(&self) -> ResolverView {
        ResolverView {
            cwd: self.cwd@,
            cwd_path: self.cwd_path@,
            protected_config: option_path_view(self.protected_config),
            protected_sessions: option_path_view(self.protected_sessions),
        }
    }
}

/// The path of the reference, to be canonicalized, or the refusal of its form.
pub open spec fn candidate_path(resolver: ResolverView, reference: Seq<char>) -> Result<
    Seq<char>,
    FileReferenceErrorView,
> {
    let path = reference.skip(1);
    if is_absolute(path) || path[0] == '~' {
        Err(FileReferenceErrorView::NotRelative { reference })
    } else if has_parent_component(path) {
        Err(FileReferenceErrorView::ParentDirectory { reference })
    } else {
        Ok(joined(resolver.cwd_path, path))
    }
}

/// The path holds the credential, or lies in the local history.
pub open spec fn is_protected(resolver: ResolverView, canonical: Seq<Seq<u8>>) -> bool {
    ||| resolver.protected_config == Some(canonical)
    ||| resolver.protected_sessions matches Some(sessions) && is_under(canonical, sessions)
}

/// The refusal of a canonical path, if it is refused.
pub open spec fn path_refusal(
    resolver: ResolverView,
    reference: Seq<char>,
    canonical: Seq<Seq<u8>>,
) -> Option<FileReferenceErrorView> {
    if !is_under(canonical, resolver.cwd) {
        Some(FileReferenceErrorView::OutsideWorkingDirectory { reference })
    } else if is_protected(resolver, canonical) {
        Some(FileReferenceErrorView::Protected { reference })
    } else {
        None
    }
}

/// The refusal of an opened file, if it is refused.
pub open spec fn file_refusal(reference: Seq<char>, is_file: bool, len: u64) -> Option<
    FileReferenceErrorView,
> {
    if !is_file {
        Some(FileReferenceErrorView::NotRegular { reference })
    } else if len > MAX_FILE_BYTES {
        Some(FileReferenceErrorView::TooLarge { reference })
    } else {
        None
    }
}

/// The block for what was read, or its refusal.
pub open spec fn contents_block(reference: Seq<char>, contents: Option<Seq<u8>>) -> Result<
    Seq<char>,
    FileReferenceErrorView,
> {
    match contents {
        None => Err(FileReferenceErrorView::Read { reference }),
        Some(bytes) => if bytes.len() > MAX_FILE_BYTES {
            Err(FileReferenceErrorView::TooLarge { reference })
        } else if !valid_utf8(bytes) {
            Err(FileReferenceErrorView::NotUtf8 { reference })
        } else {
            Ok(file_block(reference, decode_utf8(bytes)))
        },
    }
}

/// What a reference becomes, given what looking it up gave, or its refusal.
pub open spec fn expanded(resolver: ResolverView, reference: Seq<char>, lookup: FileLookupView) ->
    Result<Seq<char>, FileReferenceErrorView> {
    match candidate_path(resolver, reference) {
        Err(error) => Err(error),
        Ok(_) => match lookup {
            FileLookupView::Unresolved => Err(FileReferenceErrorView::Canonicalize { reference }),
            FileLookupView::Resolved { canonical, file } => match path_refusal(
                resolver,
                reference,
                canonical,
            ) {
                Some(error) => Err(error),
                None => match file {
                    FileAccessView::Unreadable => Err(FileReferenceErrorView::Read { reference }),
                    FileAccessView::Opened { is_file, len, contents } => match file_refusal(
                        reference,
                        is_file,
                        len,
                    ) {
                        Some(error) => Err(error),
                        None => contents_block(reference, contents),
                    },
                },
            },
        },
    }
}

/// The lookup of the reference at `at`; one that is missing found nothing.
pub open spec fn lookup_at(lookups: Seq<FileLookupView>, at: int) -> FileLookupView {
    if 0 <= at < lookups.len() {
        lookups[at]
    } else {
        FileLookupView::Unresolved
    }
}

/// The first `n` segments with every reference expanded, or the refusal of the first reference
/// that is refused.
pub open spec fn resolved_segments(
    resolver: ResolverView,
    segments: Seq<Seq<char>>,
    lookups: Seq<FileLookupView>,
    n: int,
) -> Result<Seq<char>, FileReferenceErrorView>
    decreases n,
{
    if n <= 0 {
        Ok(Seq::empty())
    } else {
        match resolved_segments(resolver, segments, lookups, n - 1) {
            Err(error) => Err(error),
            Ok(text) => {
                let segment = segments[n - 1];
                let word = trim_end(segment);
                if is_reference(word) {
                    match expanded(
                        resolver,
                        word,
                        lookup_at(lookups, references_in(segments, n - 1).len() as int),
                    ) {
                        Err(error) => Err(error),
                        Ok(block) => Ok(text + block + segment.skip(word.len() as int)),
                    }
                } else {
                    Ok(text + segment)
                }
            },
        }
    }
}

/// The prompt with every reference expanded, or the refusal of the first reference that is refused.
pub open spec fn resolved(
    resolver: ResolverView,
    prompt: Seq<char>,
    lookups: Seq<FileLookupView>,
) -> Result<Seq<char>, FileReferenceErrorView> {
    let segments = split_after_whitespace(prompt);
    resolved_segments(resolver, segments, lookups, segments.len() as int)
}

pub open spec fn resolution_view(resolution: Result<String, FileReferenceError>) -> Result<
    Seq<char>,
    FileReferenceErrorView,
> {
    match resolution {
        Ok(text) => Ok(text@),
        Err(error) => Err(error@),
    }
}

pub open spec fn refusal_view(verdict: Result<(), FileReferenceError>) -> Option<
    FileReferenceErrorView,
> {
    match verdict {
        Ok(_) => None,
        Err(error) => Some(error@),
    }
}

/// The text without its trailing whitespace.
fn word_of(segment: &str) -> (word: String)
    ensures
        word@ == trim_end(segment@),
        word@.len() <= segment@.len(),
{
    let chars = chars_of(segment);
    let mut end: usize = chars.len();
    assert(chars@.take(end as int) =~= chars@);
    while end > 0 && whitespace(chars[end - 1])
        invariant
            end <= chars@.len(),
            chars@ == segment@,
            trim_end(chars@.take(end as int)) == trim_end(segment@),
        decreases end,
    {
        assert(chars@.take(end as int).drop_last() =~= chars@.take(end - 1));
        end -= 1;
    }
    let word = text_of(slice_subrange(chars.as_slice(), 0, end));
    assert(word@ =~= chars@.take(end as int));
    word
}

fn reference_word(word: &str) -> (result: bool)
    ensures
        result == is_reference(word@),
{
    let chars = chars_of(word);
    chars.len() > 1 && chars[0] == '@'
}

/// The references of a prompt, in order.
pub fn references(prompt: &str) -> (found: Vec<String>)
    ensures
        views(found@) == references_of(prompt@),
{
    let segments = split_keeping_whitespace(prompt);
    let ghost all = views(segments@);
    let mut found: Vec<String> = Vec::new();
    let mut n: usize = 0;
    assert(views(found@) =~= references_in(all, 0));
    while n < segments.len()
        invariant
            n <= segments@.len(),
            all == views(segments@),
            views(found@) == references_in(all, n as int),
        decreases segments@.len() - n,
    {
        let ghost before = views(found@);
        let word = word_of(segments[n].as_str());
        assert(all[n as int] == segments@[n as int]@);
        n += 1;
        if reference_word(word.as_str()) {
            found.push(word);
            assert(views(found@) =~= before.push(word@));
        }
    }
    found
}

/// The configuration file and the sessions directory of an Adapt directory, which are protected.
pub fn protected_paths(adapt_dir: &str) -> (paths: (String, String))
    ensures
        paths.0@ == joined(adapt_dir@, "config.toml"@),
        paths.1@ == joined(adapt_dir@, "sessions"@),
{
    (join(adapt_dir, "config.toml"), join(adapt_dir, "sessions"))
}

/// A path whose last component is an ordinary name has a parent.
proof fn lemma_named_path_has_parent(path: Seq<char>)
    requires
        path.len() >= 2,
        path.last() != '/',
        path.last() != '.',
    ensures
        parent_of(path) is Some,
{
    let base = base_len(path);
    lemma_last_component_start(path, base);
    let start = last_component_start(path, base);
    assert(last_component_start(path, base) == last_component_start(path.drop_last(), base));
    lemma_last_component_start(path.drop_last(), base);
    let component = path.skip(start);
    assert(component.len() > 0);
    assert(component.last() == path.last());
    assert(!is_neutral(component)) by {
        if component =~= seq!['.'] {
            assert(component.last() == '.');
        }
    }
    assert(stripped(path, base) == path);
}

impl FileReferenceResolver {
    /// The working directory and the Adapt directory to resolve references with, given the current
    /// directory, if there is one, and the home directory of the user.
    pub fn for_current_dir(current_dir: Option<&str>, home: Option<&str>) -> (roots: Result<
        (String, String),
        FileReferenceError,
    >)
        ensures
            match (current_dir, home) {
                (None, _) => roots is Err && roots->Err_0 == FileReferenceError::CurrentDirectory,
                (Some(_), None) => roots is Err && roots->Err_0@ == (FileReferenceErrorView::Root {
                    path: "~/.adapt"@,
                }),
                (Some(cwd), Some(home)) => {
                    &&& roots is Ok
                    &&& roots->Ok_0.0@ == cwd@
                    &&& Some(roots->Ok_0.1@) == parent_of(joined(home@, ".adapt/config.toml"@))
                },
            },
    {
        let cwd = match current_dir {
            Some(cwd) => cwd,
            None => {
                return Err(FileReferenceError::CurrentDirectory);
            },
        };
        let config_path = match default_config_path(home) {
            Ok(path) => path,
            Err(_) => {
                return Err(FileReferenceError::Root { path: "~/.adapt".to_owned() });
            },
        };
        proof {
            reveal_strlit(".adapt/config.toml");
            lemma_named_path_has_parent(config_path@);
        }
        match parent(config_path.as_str()) {
            Some(adapt_dir) => Ok((cwd.to_owned(), adapt_dir)),
            None => Err(FileReferenceError::Root { path: "~/.adapt".to_owned() }),
        }
    }

    /// The resolver for a working directory, given its canonical form, if it has one, and the
    /// canonical forms of the protected paths that exist.
    pub fn new(
        cwd_path: &str,
        cwd: Option<CanonicalPath>,
        protected_config: Option<CanonicalPath>,
        protected_sessions: Option<CanonicalPath>,
    ) -> (resolver: Result<Self, FileReferenceError>)
        ensures
            match cwd {
                Some(cwd) => {
                    &&& resolver is Ok
                    &&& resolver->Ok_0@ == (ResolverView {
                        cwd: cwd@,
                        cwd_path: cwd_path@,
                        protected_config: option_path_view(protected_config),
                        protected_sessions: option_path_view(protected_sessions),
                    })
                },
                None => resolver is Err && resolver->Err_0@ == (FileReferenceErrorView::Root {
                    path: cwd_path@,
                }),
            },
    {
        match cwd {
            Some(cwd) => Ok(
                FileReferenceResolver {
                    cwd,
                    cwd_path: cwd_path.to_owned(),
                    protected_config,
                    protected_sessions,
                },
            ),
            None => Err(FileReferenceError::Root { path: cwd_path.to_owned() }),
        }
    }

    /// The path of a reference, to be canonicalized, or the refusal of its form.
    pub fn candidate(&self, reference: &str) -> (path: Result<String, FileReferenceError>)
        requires
            is_reference(reference@),
        ensures
            resolution_view(path) == candidate_path(self@, reference@),
    {
        let chars = chars_of(reference);
        let path = text_of(slice_subrange(chars.as_slice(), 1, chars.len()));
        assert(path@ =~= reference@.skip(1));
        if absolute(path.as_str()) || chars[1] == '~' {
            return Err(FileReferenceError::NotRelative { reference: reference.to_owned() });
        }
        if contains_parent_component(path.as_str()) {
            return Err(FileReferenceError::ParentDirectory { reference: reference.to_owned() });
        }
        Ok(join(self.cwd_path.as_str(), path.as_str()))
    }

    /// Judge a canonical path before it is opened.
    pub fn check_path(&self, reference: &str, canonical: &CanonicalPath) -> (verdict: Result<
        (),
        FileReferenceError,
    >)
        ensures
            refusal_view(verdict) == path_refusal(self@, reference@, canonical@),
    {
        if !canonical.lies_under(&self.cwd) {
            return Err(
                FileReferenceError::OutsideWorkingDirectory { reference: reference.to_owned() },
            );
        }
        let is_config = match &self.protected_config {
            Some(config) => canonical.same(config),
            None => false,
        };
        let in_sessions = match &self.protected_sessions {
            Some(sessions) => canonical.lies_under(sessions),
            None => false,
        };
        if is_config || in_sessions {
            return Err(FileReferenceError::Protected { reference: reference.to_owned() });
        }
        Ok(())
    }

    /// Judge an opened file before it is read.
    pub fn check_file(&self, reference: &str, is_file: bool, len: u64) -> (verdict: Result<
        (),
        FileReferenceError,
    >)
        ensures
            refusal_view(verdict) == file_refusal(reference@, is_file, len),
    {
        if !is_file {
            Err(FileReferenceError::NotRegular { reference: reference.to_owned() })
        } else if len > MAX_FILE_BYTES {
            Err(FileReferenceError::TooLarge { reference: reference.to_owned() })
        } else {
            Ok(())
        }
    }

    /// What a reference becomes, given what looking it up gave.
    fn expand(&self, reference: &str, lookup: FileLookup) -> (block_text: Result<
        String,
        FileReferenceError,
    >)
        requires
            is_reference(reference@),
        ensures
            resolution_view(block_text) == expanded(self@, reference@, lookup@),
    {
        match self.candidate(reference) {
            Ok(_) => {},
            Err(error) => {
                return Err(error);
            },
        }
        let (canonical, file) = match lookup {
            FileLookup::Unresolved => {
                return Err(FileReferenceError::Canonicalize { reference: reference.to_owned() });
            },
            FileLookup::Resolved { canonical, file } => (canonical, file),
        };
        match self.check_path(reference, &canonical) {
            Ok(_) => {},
            Err(error) => {
                return Err(error);
            },
        }
        let contents = match file {
            FileAccess::Unreadable => {
                return Err(FileReferenceError::Read { reference: reference.to_owned() });
            },
            FileAccess::Opened { is_file, len, contents } => {
                match self.check_file(reference, is_file, len) {
                    Ok(_) => {},
                    Err(error) => {
                        return Err(error);
                    },
                }
                contents
            },
        };
        let bytes = match contents {
            Some(bytes) => bytes,
            None => {
                return Err(FileReferenceError::Read { reference: reference.to_owned() });
            },
        };
        if bytes.len() as u64 > MAX_FILE_BYTES {
            return Err(FileReferenceError::TooLarge { reference: reference.to_owned() });
        }
        match utf8_text(bytes) {
            Some(contents) => Ok(block(reference, contents.as_str())),
            None => Err(FileReferenceError::NotUtf8 { reference: reference.to_owned() }),
        }
    }

    /// The prompt with every reference expanded, given what looking up its references gave, in
    /// order. If one reference is refused, the whole prompt is.
    pub fn resolve(&self, prompt: &str, lookups: Vec<FileLookup>) -> (resolution: Result<
        String,
        FileReferenceError,
    >)
        ensures
            resolution_view(resolution) == resolved(self@, prompt@, lookup_views(lookups@)),
    {
        let segments = split_keeping_whitespace(prompt);
        let ghost all = views(segments@);
        let ghost found = lookup_views(lookups@);
        let mut remaining = lookups;
        let mut out = String::new();
        let mut n: usize = 0;
        assert(out@ =~= Seq::<char>::empty());
        assert(lookup_views(remaining@) =~= found.skip(0));
        while n < segments.len()
            invariant
                n <= segments@.len(),
                all == views(segments@),
                all == split_after_whitespace(prompt@),
                found == lookup_views(lookups@),
                resolved_segments(self@, all, found, n as int) == Ok::<
                    Seq<char>,
                    FileReferenceErrorView,
                >(out@),
                references_in(all, n as int).len() <= found.len() ==> lookup_views(remaining@)
                    == found.skip(references_in(all, n as int).len() as int),
                references_in(all, n as int).len() > found.len() ==> remaining@.len() == 0,
            decreases segments@.len() - n,
        {
            let segment = segments[n].as_str();
            assert(all[n as int] == segment@);
            let word = word_of(segment);
            let ghost before = out@;
            let ghost at = references_in(all, n as int).len() as int;
            if reference_word(word.as_str()) {
                let ghost unused = lookup_views(remaining@);
                let lookup = if remaining.len() > 0 {
                    assert(lookup_views(remaining@)[0] == found[at]);
                    remaining.remove(0)
                } else {
                    FileLookup::Unresolved
                };
                assert(lookup@ == lookup_at(found, at));
                assert(unused.len() > 0 ==> lookup_views(remaining@) =~= unused.skip(1));
                assert(at < found.len() ==> unused.skip(1) =~= found.skip(at + 1));
                match self.expand(word.as_str(), lookup) {
                    Ok(block_text) => {
                        out.append(block_text.as_str());
                        let chars = chars_of(segment);
                        let len: usize = chars_of(word.as_str()).len();
                        let rest = text_of(slice_subrange(chars.as_slice(), len, chars.len()));
                        assert(rest@ =~= segment@.skip(word@.len() as int));
                        out.append(rest.as_str());
                        assert(out@ =~= before + block_text@ + segment@.skip(word@.len() as int));
                    },
                    Err(error) => {
                        proof {
                            lemma_refusal_stays(self@, all, found, n + 1, all.len() as int);
                        }
                        return Err(error);
                    },
                }
            } else {
                out.append(segment);
            }
            n += 1;
        }
        Ok(out)
    }
}

/// The segments after the first refused reference change nothing.
proof fn lemma_refusal_stays(
    resolver: ResolverView,
    segments: Seq<Seq<char>>,
    lookups: Seq<FileLookupView>,
    n: int,
    m: int,
)
    requires
        n <= m,
        resolved_segments(resolver, segments, lookups, n) is Err,
    ensures
        resolved_segments(resolver, segments, lookups, m) == resolved_segments(
            resolver,
            segments,
            lookups,
            n,
        ),
    decreases m - n,
{
    if n < m {
        lemma_refusal_stays(resolver, segments, lookups, n, m - 1);
    }
}

/// Only what the policy allows is expanded: a relative path without `..` whose canonical form lies
/// in the working directory, is neither the configuration file nor in the local history, and is a
/// regular UTF-8 file of at most 1 MiB.
pub proof fn expanded_references_obey_the_policy(
    resolver: ResolverView,
    reference: Seq<char>,
    lookup: FileLookupView,
)
    requires
        expanded(resolver, reference, lookup) is Ok,
    ensures
        !is_absolute(reference.skip(1)),
        reference.skip(1)[0] != '~',
        !has_parent_component(reference.skip(1)),
        lookup matches FileLookupView::Resolved {
            canonical,
            file: FileAccessView::Opened { is_file: true, len, contents: Some(bytes) },
        } && {
            &&& is_under(canonical, resolver.cwd)
            &&& resolver.protected_config != Some(canonical)
            &&& resolver.protected_sessions matches Some(sessions) ==> !is_under(
                canonical,
                sessions,
            )
            &&& len <= MAX_FILE_BYTES
            &&& bytes.len() <= MAX_FILE_BYTES
            &&& valid_utf8(bytes)
            &&& expanded(resolver, reference, lookup)->Ok_0 == file_block(
                reference,
                decode_utf8(bytes),
            )
        },
{
}

proof fn lemma_escapes_are_plain(character: char, in_attribute: bool)
    ensures
        forall|i: int|
            0 <= i < escape(character, in_attribute).len() ==> {
                let c = #[trigger] escape(character, in_attribute)[i];
                c != '<' && c != '>' && (in_attribute ==> c != '"')
            },
{
    reveal_strlit("&amp;");
    reveal_strlit("&quot;");
    reveal_strlit("&lt;");
    reveal_strlit("&gt;");
}

/// Escaped text holds no angle bracket, and inside an attribute no double quote either. So neither
/// a file's contents nor a path can close the block or open another one.
pub proof fn escaped_text_cannot_forge_markup(text: Seq<char>, in_attribute: bool)
    ensures
        !escaped(text, in_attribute).contains('<'),
        !escaped(text, in_attribute).contains('>'),
        in_attribute ==> !escaped(text, in_attribute).contains('"'),
    decreases text.len(),
{
    if text.len() > 0 {
        let before = escaped(text.drop_last(), in_attribute);
        let last = escape(text.last(), in_attribute);
        escaped_text_cannot_forge_markup(text.drop_last(), in_attribute);
        lemma_escapes_are_plain(text.last(), in_attribute);
        assert forall|i: int| 0 <= i < (before + last).len() implies ({
            let c = #[trigger] (before + last)[i];
            c != '<' && c != '>' && (in_attribute ==> c != '"')
        }) by {
            if i < before.len() {
                assert(before.contains(before[i]));
            } else {
                assert((before + last)[i] == last[i - before.len()]);
            }
        }
    }
}

proof fn lemma_without_references(
    resolver: ResolverView,
    segments: Seq<Seq<char>>,
    lookups: Seq<FileLookupView>,
    n: int,
)
    requires
        0 <= n <= segments.len(),
        references_in(segments, n).len() == 0,
    ensures
        resolved_segments(resolver, segments, lookups, n) == Ok::<
            Seq<char>,
            FileReferenceErrorView,
        >(concatenation(segments.take(n))),
    decreases n,
{
    if n == 0 {
        assert(segments.take(0) =~= Seq::<Seq<char>>::empty());
    } else {
        assert(references_in(segments, n - 1).len() == 0);
        lemma_without_references(resolver, segments, lookups, n - 1);
        assert(segments.take(n).drop_last() =~= segments.take(n - 1));
        lemma_concatenation_grows(segments.take(n));
    }
}

/// A prompt without references is sent as it is, whatever is in the file system.
pub proof fn prompt_without_references_is_unchanged(
    resolver: ResolverView,
    prompt: Seq<char>,
    lookups: Seq<FileLookupView>,
)
    requires
        references_of(prompt).len() == 0,
    ensures
        resolved(resolver, prompt, lookups) == Ok::<Seq<char>, FileReferenceErrorView>(prompt),
{
    let segments = split_after_whitespace(prompt);
    lemma_without_references(resolver, segments, lookups, segments.len() as int);
    assert(segments.take(segments.len() as int) =~= segments);
    lemma_split_after_whitespace_is_lossless(prompt);
}

proof fn lemma_every_reference_is_expanded(
    resolver: ResolverView,
    segments: Seq<Seq<char>>,
    lookups: Seq<FileLookupView>,
    n: int,
    i: int,
)
    requires
        0 <= n <= segments.len(),
        resolved_segments(resolver, segments, lookups, n) is Ok,
        0 <= i < references_in(segments, n).len(),
    ensures
        expanded(resolver, references_in(segments, n)[i], lookup_at(lookups, i)) is Ok,
    decreases n,
{
    if i < references_in(segments, n - 1).len() {
        lemma_every_reference_is_expanded(resolver, segments, lookups, n - 1, i);
    }
}

/// A prompt is resolved only if each of its references is: one refused reference refuses the whole
/// prompt.
pub proof fn resolution_is_all_or_nothing(
    resolver: ResolverView,
    prompt: Seq<char>,
    lookups: Seq<FileLookupView>,
    i: int,
)
    requires
        0 <= i < references_of(prompt).len(),
        expanded(resolver, references_of(prompt)[i], lookup_at(lookups, i)) is Err,
    ensures
        resolved(resolver, prompt, lookups) is Err,
{
    let segments = split_after_whitespace(prompt);
    let n = segments.len() as int;
    if resolved_segments(resolver, segments, lookups, n) is Ok {
        lemma_every_reference_is_expanded(resolver, segments, lookups, n, i);
    }
}

proof fn lemma_first_refusal(
    resolver: ResolverView,
    segments: Seq<Seq<char>>,
    lookups: Seq<FileLookupView>,
    n: int,
    i: int,
)
    requires
        0 <= n <= segments.len(),
        0 <= i <= references_in(segments, n).len(),
        forall|j: int|
            0 <= j < i ==> expanded(
                resolver,
                #[trigger] references_in(segments, n)[j],
                lookup_at(lookups, j),
            ) is Ok,
        i < references_in(segments, n).len() ==> expanded(
            resolver,
            references_in(segments, n)[i],
            lookup_at(lookups, i),
        ) is Err,
    ensures
        if i < references_in(segments, n).len() {
            resolved_segments(resolver, segments, lookups, n) == Err::<
                Seq<char>,
                FileReferenceErrorView,
            >(expanded(resolver, references_in(segments, n)[i], lookup_at(lookups, i))->Err_0)
        } else {
            resolved_segments(resolver, segments, lookups, n) is Ok
        },
    decreases n,
{
    if n > 0 {
        let before = references_in(segments, n - 1);
        let all = references_in(segments, n);
        assert forall|j: int| 0 <= j < before.len() implies all[j] == #[trigger] before[j] by {}
        let earlier = if i < before.len() {
            i
        } else {
            before.len() as int
        };
        lemma_first_refusal(resolver, segments, lookups, n - 1, earlier);
        if before.len() < all.len() && i > before.len() {
            assert(expanded(
                resolver,
                all[before.len() as int],
                lookup_at(lookups, before.len() as int),
            ) is Ok);
        }
    }
}

/// The first reference that is refused decides how the prompt is refused.
pub proof fn first_refused_reference_decides(
    resolver: ResolverView,
    prompt: Seq<char>,
    lookups: Seq<FileLookupView>,
    i: int,
)
    requires
        0 <= i < references_of(prompt).len(),
        forall|j: int|
            0 <= j < i ==> expanded(
                resolver,
                #[trigger] references_of(prompt)[j],
                lookup_at(lookups, j),
            ) is Ok,
        expanded(resolver, references_of(prompt)[i], lookup_at(lookups, i)) is Err,
    ensures
        resolved(resolver, prompt, lookups) == Err::<Seq<char>, FileReferenceErrorView>(
            expanded(resolver, references_of(prompt)[i], lookup_at(lookups, i))->Err_0,
        ),
{
    let segments = split_after_whitespace(prompt);
    lemma_first_refusal(resolver, segments, lookups, segments.len() as int, i);
}

/// What two parts of a prompt give together: their texts, or the first refusal.
pub open spec fn in_turn(
    first: Result<Seq<char>, FileReferenceErrorView>,
    second: Result<Seq<char>, FileReferenceErrorView>,
) -> Result<Seq<char>, FileReferenceErrorView> {
    match (first, second) {
        (Err(error), _) => Err(error),
        (Ok(_), Err(error)) => Err(error),
        (Ok(text), Ok(more)) => Ok(text + more),
    }
}

/// The first `n` segments resolve by the lookups of their own references, whatever comes after.
proof fn lemma_prefix_resolves_alone(
    resolver: ResolverView,
    segments: Seq<Seq<char>>,
    more: Seq<Seq<char>>,
    lookups: Seq<FileLookupView>,
    others: Seq<FileLookupView>,
    n: int,
)
    requires
        0 <= n <= segments.len(),
        references_in(segments, n).len() <= lookups.len(),
    ensures
        references_in(segments + more, n) == references_in(segments, n),
        resolved_segments(resolver, segments + more, lookups + others, n) == resolved_segments(
            resolver,
            segments,
            lookups,
            n,
        ),
    decreases n,
{
    if n > 0 {
        lemma_prefix_resolves_alone(resolver, segments, more, lookups, others, n - 1);
        assert((segments + more)[n - 1] == segments[n - 1]);
    }
}

/// Segments resolve one group after the other.
proof fn lemma_segments_resolve_in_turn(
    resolver: ResolverView,
    segments: Seq<Seq<char>>,
    more: Seq<Seq<char>>,
    lookups: Seq<FileLookupView>,
    others: Seq<FileLookupView>,
    m: int,
)
    requires
        0 <= m <= more.len(),
        references_in(segments, segments.len() as int).len() == lookups.len(),
    ensures
        references_in(segments + more, segments.len() + m) == references_in(
            segments,
            segments.len() as int,
        ) + references_in(more, m),
        resolved_segments(resolver, segments + more, lookups + others, segments.len() + m)
            == in_turn(
            resolved_segments(resolver, segments, lookups, segments.len() as int),
            resolved_segments(resolver, more, others, m),
        ),
    decreases m,
{
    let n = segments.len() as int;
    let all = segments + more;
    let both = lookups + others;
    if m == 0 {
        lemma_prefix_resolves_alone(resolver, segments, more, lookups, others, n);
        assert(references_in(all, n) =~= references_in(segments, n) + references_in(more, 0));
        match resolved_segments(resolver, segments, lookups, n) {
            Ok(text) => assert(text + Seq::<char>::empty() =~= text),
            Err(_) => {},
        }
    } else {
        lemma_segments_resolve_in_turn(resolver, segments, more, lookups, others, m - 1);
        let segment = more[m - 1];
        let word = trim_end(segment);
        assert(all[n + m - 1] == segment);
        let before = references_in(all, n + m - 1);
        let at = references_in(more, m - 1).len() as int;
        assert(lookup_at(both, before.len() as int) == lookup_at(others, at));
        if is_reference(word) {
            assert(before.push(word) =~= references_in(segments, n) + references_in(
                more,
                m - 1,
            ).push(word));
        }
        match (
            resolved_segments(resolver, segments, lookups, n),
            resolved_segments(resolver, more, others, m - 1),
        ) {
            (Ok(text), Ok(next)) => {
                if is_reference(word) {
                    match expanded(resolver, word, lookup_at(others, at)) {
                        Ok(block) => {
                            let rest = segment.skip(word.len() as int);
                            assert((text + next) + block + rest =~= text + (next + block + rest));
                        },
                        Err(_) => {},
                    }
                } else {
                    assert((text + next) + segment =~= text + (next + segment));
                }
            },
            _ => {},
        }
    }
}

/// A text that ends in whitespace is split on its own.
proof fn lemma_split_behind_whitespace(text: Seq<char>, rest: Seq<char>)
    requires
        text.len() == 0 || is_whitespace(text.last()),
    ensures
        split_after_whitespace(text + rest) == split_after_whitespace(text)
            + split_after_whitespace(rest),
    decreases text.len(),
{
    let all = text + rest;
    if text.len() == 0 {
        assert(all =~= rest);
        assert(split_after_whitespace(text) + split_after_whitespace(rest)
            =~= split_after_whitespace(rest));
    } else {
        lemma_word_len(text);
        let n = word_len(text);
        if n >= text.len() {
            assert(!is_whitespace(text[text.len() - 1]));
        }
        assert forall|i: int| 0 <= i < n implies !is_whitespace(#[trigger] all[i]) by {
            assert(all[i] == text[i]);
        }
        lemma_word_len_is(all, n);
        assert(all.take(n + 1) =~= text.take(n + 1));
        assert(all.skip(n + 1) =~= text.skip(n + 1) + rest);
        if n + 1 < text.len() {
            assert(text.skip(n + 1).last() == text.last());
        }
        lemma_split_behind_whitespace(text.skip(n + 1), rest);
        assert(split_after_whitespace(all) =~= split_after_whitespace(text)
            + split_after_whitespace(rest));
    }
}

/// A whitespace character behind a word belongs to the last segment.
proof fn lemma_split_of_ended_word(text: Seq<char>, space: char)
    requires
        text.len() > 0,
        !is_whitespace(text.last()),
        is_whitespace(space),
    ensures
        ({
            let segments = split_after_whitespace(text);
            &&& segments.len() > 0
            &&& segments.last().len() > 0
            &&& !is_whitespace(segments.last().last())
            &&& split_after_whitespace(text.push(space)) == segments.drop_last().push(
                segments.last().push(space),
            )
        }),
    decreases text.len(),
{
    lemma_word_len(text);
    let n = word_len(text);
    let longer = text.push(space);
    let segments = split_after_whitespace(text);
    assert forall|i: int| 0 <= i < n implies !is_whitespace(#[trigger] longer[i]) by {
        assert(longer[i] == text[i]);
    }
    lemma_word_len_is(longer, n);
    if n >= text.len() {
        assert(longer.take(n + 1) =~= longer);
        assert(split_after_whitespace(longer.skip(n + 1)).len() == 0);
        assert(split_after_whitespace(longer) =~= segments.drop_last().push(
            segments.last().push(space),
        ));
    } else {
        let rest = text.skip(n + 1);
        assert(n + 1 < text.len());
        assert(rest.last() == text.last());
        lemma_split_of_ended_word(rest, space);
        let others = split_after_whitespace(rest);
        assert(longer.take(n + 1) =~= text.take(n + 1));
        assert(longer.skip(n + 1) =~= rest.push(space));
        assert(segments.last() == others.last());
        assert(split_after_whitespace(longer) =~= segments.drop_last().push(
            segments.last().push(space),
        ));
    }
}

/// Whitespace behind a prompt that ends in a word is kept behind it.
proof fn lemma_ended_word_resolves(
    resolver: ResolverView,
    text: Seq<char>,
    space: char,
    lookups: Seq<FileLookupView>,
)
    requires
        text.len() > 0,
        !is_whitespace(text.last()),
        is_whitespace(space),
        lookups.len() == references_of(text).len(),
    ensures
        references_of(text.push(space)) == references_of(text),
        resolved(resolver, text.push(space), lookups) == in_turn(
            resolved(resolver, text, lookups),
            Ok(seq![space]),
        ),
{
    lemma_split_of_ended_word(text, space);
    let segments = split_after_whitespace(text);
    let n = segments.len() as int;
    let last = segments.last();
    let longer = last.push(space);
    let start = segments.drop_last();
    let none = Seq::<FileLookupView>::empty();
    assert(longer.drop_last() =~= last);
    assert(trim_end(last) == last);
    assert(trim_end(longer) == last) by {
        reveal_with_fuel(trim_end, 2);
    }
    assert(start + seq![last] =~= segments);
    assert(start + seq![longer] =~= split_after_whitespace(text.push(space)));
    assert(lookups + none =~= lookups);
    assert(references_in(segments, n - 1).len() <= lookups.len());
    assert(references_in(start, n - 1).len() <= lookups.len()) by {
        lemma_references_of_prefix(start, seq![last], n - 1);
    }
    lemma_prefix_resolves_alone(resolver, start, seq![last], lookups, none, n - 1);
    lemma_prefix_resolves_alone(resolver, start, seq![longer], lookups, none, n - 1);
    assert((start + seq![last])[n - 1] == last);
    assert((start + seq![longer])[n - 1] == longer);
    assert(last.skip(last.len() as int) =~= Seq::<char>::empty());
    assert(longer.skip(last.len() as int) =~= seq![space]);
    match resolved_segments(resolver, start, lookups, n - 1) {
        Ok(before) => {
            assert(before + longer =~= (before + last) + seq![space]);
            match expanded(
                resolver,
                last,
                lookup_at(lookups, references_in(start, n - 1).len() as int),
            ) {
                Ok(block) => {
                    assert(before + block + seq![space] =~= (before + block + Seq::empty())
                        + seq![space]);
                },
                Err(_) => {},
            }
        },
        Err(_) => {},
    }
}

proof fn lemma_references_of_prefix(segments: Seq<Seq<char>>, more: Seq<Seq<char>>, n: int)
    requires
        0 <= n <= segments.len(),
    ensures
        references_in(segments + more, n) == references_in(segments, n),
    decreases n,
{
    if n > 0 {
        lemma_references_of_prefix(segments, more, n - 1);
        assert((segments + more)[n - 1] == segments[n - 1]);
    }
}

/// Whitespace holds no reference.
proof fn lemma_whitespace_has_no_references(space: Seq<char>)
    requires
        forall|i: int| 0 <= i < space.len() ==> is_whitespace(#[trigger] space[i]),
    ensures
        references_of(space) == Seq::<Seq<char>>::empty(),
    decreases space.len(),
{
    if space.len() > 0 {
        let rest = space.skip(1);
        let segments = split_after_whitespace(space);
        let first = space.take(1);
        lemma_whitespace_has_no_references(rest);
        assert(word_len(space) == 0);
        let others = split_after_whitespace(rest);
        assert(segments == seq![first] + others);
        assert(first.drop_last() =~= Seq::<char>::empty());
        assert(first.last() == space[0]);
        reveal_with_fuel(trim_end, 2);
        assert(trim_end(first).len() == 0);
        reveal_with_fuel(references_in, 2);
        assert(references_in(seq![first], 1) =~= Seq::<Seq<char>>::empty());
        let resolver = ResolverView {
            cwd: Seq::empty(),
            cwd_path: Seq::empty(),
            protected_config: None,
            protected_sessions: None,
        };
        lemma_segments_resolve_in_turn(
            resolver,
            seq![first],
            others,
            Seq::empty(),
            Seq::empty(),
            others.len() as int,
        );
        assert(references_of(space) =~= Seq::<Seq<char>>::empty());
    }
}

/// Two parts of a prompt resolve one after the other where the first ends in whitespace.
proof fn lemma_parts_resolve_in_turn(
    resolver: ResolverView,
    first: Seq<char>,
    second: Seq<char>,
    lookups: Seq<FileLookupView>,
    others: Seq<FileLookupView>,
)
    requires
        first.len() == 0 || is_whitespace(first.last()),
        lookups.len() == references_of(first).len(),
    ensures
        references_of(first + second) == references_of(first) + references_of(second),
        resolved(resolver, first + second, lookups + others) == in_turn(
            resolved(resolver, first, lookups),
            resolved(resolver, second, others),
        ),
{
    lemma_split_behind_whitespace(first, second);
    let more = split_after_whitespace(second);
    lemma_segments_resolve_in_turn(
        resolver,
        split_after_whitespace(first),
        more,
        lookups,
        others,
        more.len() as int,
    );
}

/// A prompt cut at whitespace resolves part by part: its references are those of the parts, in
/// order, and with the same files it becomes what the parts become, with the whitespace between
/// them. If a part is refused, the whole prompt is, for the reason of the first part that is.
pub proof fn prompts_resolve_part_by_part(
    resolver: ResolverView,
    first: Seq<char>,
    space: Seq<char>,
    second: Seq<char>,
    lookups: Seq<FileLookupView>,
    others: Seq<FileLookupView>,
)
    requires
        space.len() > 0,
        forall|i: int| 0 <= i < space.len() ==> is_whitespace(#[trigger] space[i]),
        lookups.len() == references_of(first).len(),
    ensures
        references_of(first + space + second) == references_of(first) + references_of(second),
        resolved(resolver, first + space + second, lookups + others) == (match (
            resolved(resolver, first, lookups),
            resolved(resolver, second, others),
        ) {
            (Err(error), _) => Err::<Seq<char>, FileReferenceErrorView>(error),
            (Ok(_), Err(error)) => Err(error),
            (Ok(text), Ok(more)) => Ok(text + space + more),
        }),
{
    let none = Seq::<FileLookupView>::empty();
    let (head, gap) = if first.len() > 0 && !is_whitespace(first.last()) {
        lemma_ended_word_resolves(resolver, first, space[0], lookups);
        (first.push(space[0]), space.skip(1))
    } else {
        (first, space)
    };
    assert(head.len() == 0 || is_whitespace(head.last()));
    assert(head + (gap + second) =~= first + space + second);
    lemma_whitespace_has_no_references(gap);
    prompt_without_references_is_unchanged(resolver, gap, none);
    if gap.len() > 0 {
        assert(is_whitespace(gap[gap.len() - 1]));
    }
    lemma_parts_resolve_in_turn(resolver, gap, second, none, others);
    assert(none + others =~= others);
    assert(references_of(gap + second) =~= references_of(second));
    lemma_parts_resolve_in_turn(resolver, head, gap + second, lookups, others);
    match (resolved(resolver, first, lookups), resolved(resolver, second, others)) {
        (Ok(text), Ok(more)) => {
            assert(text + (gap + more) =~= text + gap + more);
            assert(text + seq![space[0]] + (space.skip(1) + more) =~= text + space + more);
        },
        _ => {},
    }
}

proof fn lemma_escaped_in_turn(first: Seq<char>, second: Seq<char>, in_attribute: bool)
    ensures
        escaped(first + second, in_attribute) == escaped(first, in_attribute) + escaped(
            second,
            in_attribute,
        ),
    decreases second.len(),
{
    if second.len() == 0 {
        assert(first + second =~= first);
        assert(escaped(first, in_attribute) + Seq::<char>::empty() =~= escaped(
            first,
            in_attribute,
        ));
    } else {
        lemma_escaped_in_turn(first, second.drop_last(), in_attribute);
        assert((first + second).drop_last() =~= first + second.drop_last());
        assert((first + second).last() == second.last());
        assert(escaped(first + second, in_attribute) =~= escaped(first, in_attribute) + escaped(
            second,
            in_attribute,
        ));
    }
}

proof fn lemma_escaped_character(character: char, in_attribute: bool)
    ensures
        escaped(seq![character], in_attribute) == escape(character, in_attribute),
{
    let text = seq![character];
    assert(text.drop_last() =~= Seq::<char>::empty());
    assert(escaped(text.drop_last(), in_attribute) =~= Seq::<char>::empty());
    assert(escaped(text, in_attribute) =~= escape(character, in_attribute));
}

/// A text is escaped character by character: the ampersand and the angle brackets become their
/// entities, so does the double quote in an attribute, and every other character, a line break
/// among them, stays itself.
pub proof fn escaping_goes_character_by_character(
    before: Seq<char>,
    character: char,
    after: Seq<char>,
    in_attribute: bool,
)
    ensures
        ({
            let whole = escaped(before + seq![character] + after, in_attribute);
            let start = escaped(before, in_attribute);
            let end = escaped(after, in_attribute);
            &&& character == '&' ==> whole == start + "&amp;"@ + end
            &&& character == '<' ==> whole == start + "&lt;"@ + end
            &&& character == '>' ==> whole == start + "&gt;"@ + end
            &&& character == '"' && in_attribute ==> whole == start + "&quot;"@ + end
            &&& character != '&' && character != '<' && character != '>' && !(character == '"'
                && in_attribute) ==> whole == start.push(character) + end
        }),
{
    lemma_escaped_in_turn(before + seq![character], after, in_attribute);
    lemma_escaped_in_turn(before, seq![character], in_attribute);
    lemma_escaped_character(character, in_attribute);
    assert(escaped(before, in_attribute) + seq![character] =~= escaped(before, in_attribute).push(
        character,
    ));
}

/// A text without the characters that mark up a block is its own escaped form.
pub proof fn plain_text_is_not_escaped(text: Seq<char>, in_attribute: bool)
    requires
        !text.contains('&'),
        !text.contains('<'),
        !text.contains('>'),
        in_attribute ==> !text.contains('"'),
    ensures
        escaped(text, in_attribute) == text,
    decreases text.len(),
{
    if text.len() > 0 {
        let start = text.drop_last();
        assert forall|c: char| start.contains(c) implies text.contains(c) by {
            let i = choose|i: int| 0 <= i < start.len() && start[i] == c;
            assert(text[i] == c);
        }
        assert(text.contains(text[text.len() - 1]));
        plain_text_is_not_escaped(start, in_attribute);
        assert(escaped(text, in_attribute) =~= text);
    }
}

/// The text that a text with entities stands for.
pub open spec fn unescaped(text: Seq<char>) -> Seq<char>
    decreases text.len(),
{
    if text.len() == 0 {
        Seq::empty()
    } else if starts_with(text, "&amp;"@) && "&amp;"@.len() > 0 {
        seq!['&'] + unescaped(text.skip("&amp;"@.len() as int))
    } else if starts_with(text, "&lt;"@) && "&lt;"@.len() > 0 {
        seq!['<'] + unescaped(text.skip("&lt;"@.len() as int))
    } else if starts_with(text, "&gt;"@) && "&gt;"@.len() > 0 {
        seq!['>'] + unescaped(text.skip("&gt;"@.len() as int))
    } else if starts_with(text, "&quot;"@) && "&quot;"@.len() > 0 {
        seq!['"'] + unescaped(text.skip("&quot;"@.len() as int))
    } else {
        seq![text[0]] + unescaped(text.skip(1))
    }
}

/// Nothing is lost by escaping: undoing the entities gives the text back.
pub proof fn escaping_can_be_undone(text: Seq<char>, in_attribute: bool)
    ensures
        unescaped(escaped(text, in_attribute)) == text,
    decreases text.len(),
{
    reveal_strlit("&amp;");
    reveal_strlit("&lt;");
    reveal_strlit("&gt;");
    reveal_strlit("&quot;");
    if text.len() == 0 {
        assert(unescaped(escaped(text, in_attribute)) =~= text);
    } else {
        let head = seq![text[0]];
        let rest = text.skip(1);
        let first = escape(text[0], in_attribute);
        let others = escaped(rest, in_attribute);
        let whole = first + others;
        assert(head + rest =~= text);
        lemma_escaped_in_turn(head, rest, in_attribute);
        lemma_escaped_character(text[0], in_attribute);
        escaping_can_be_undone(rest, in_attribute);
        assert(whole[0] == first[0]);
        assert(whole.take(first.len() as int) =~= first);
        assert(whole.skip(first.len() as int) =~= others);
        if text[0] != '&' && first.len() > 1 {
            assert(whole[1] == first[1]);
            if starts_with(whole, "&amp;"@) {
                assert(whole.take(5)[1] == 'a');
            }
            if starts_with(whole, "&lt;"@) {
                assert(whole.take(4)[1] == 'l');
            }
            if starts_with(whole, "&gt;"@) {
                assert(whole.take(4)[1] == 'g');
            }
        }
        if first.len() == 1 {
            assert(text[0] != '&');
            if starts_with(whole, "&amp;"@) {
                assert(whole.take(5)[0] == '&');
            }
            if starts_with(whole, "&lt;"@) {
                assert(whole.take(4)[0] == '&');
            }
            if starts_with(whole, "&gt;"@) {
                assert(whole.take(4)[0] == '&');
            }
            if starts_with(whole, "&quot;"@) {
                assert(whole.take(6)[0] == '&');
            }
        }
        assert(unescaped(whole) == head + unescaped(others));
    }
}

/// Two different texts never have the same escaped form.
pub proof fn escaping_keeps_texts_apart(first: Seq<char>, second: Seq<char>, in_attribute: bool)
    requires
        escaped(first, in_attribute) == escaped(second, in_attribute),
    ensures
        first == second,
{
    escaping_can_be_undone(first, in_attribute);
    escaping_can_be_undone(second, in_attribute);
}

/// The path is the directory or lies below it exactly if the directory's components stand in front
/// of its own.
pub proof fn paths_below_a_directory_begin_with_it(path: Seq<Seq<u8>>, directory: Seq<Seq<u8>>)
    ensures
        is_under(path, directory) <==> exists|below: Seq<Seq<u8>>|
            path == #[trigger] (directory + below),
{
    if is_under(path, directory) {
        assert(path =~= directory + path.skip(directory.len() as int));
    }
    if exists|below: Seq<Seq<u8>>| path == #[trigger] (directory + below) {
        let below = choose|below: Seq<Seq<u8>>| path == #[trigger] (directory + below);
        assert(path.take(directory.len() as int) =~= directory);
    }
}

/// A reference to a regular UTF-8 file of at most 1 MiB below the working directory, outside of
/// what is protected, is expanded: its block names the reference as it was typed and holds the
/// file's text.
pub proof fn allowed_references_are_expanded(
    resolver: ResolverView,
    path: Seq<char>,
    below: Seq<Seq<u8>>,
    len: u64,
    bytes: Seq<u8>,
)
    requires
        path.len() > 0,
        path[0] != '/',
        path[0] != '~',
        !split(path, '/').contains(seq!['.', '.']),
        resolver.protected_config != Some(resolver.cwd + below),
        resolver.protected_sessions matches Some(sessions) ==> forall|inside: Seq<Seq<u8>>|
            resolver.cwd + below != #[trigger] (sessions + inside),
        len <= 1048576,
        bytes.len() <= 1048576,
        valid_utf8(bytes),
    ensures
        ({
            let reference = seq!['@'] + path;
            let lookup = FileLookupView::Resolved {
                canonical: resolver.cwd + below,
                file: FileAccessView::Opened { is_file: true, len, contents: Some(bytes) },
            };
            &&& candidate_path(resolver, reference) is Ok
            &&& expanded(resolver, reference, lookup) == Ok::<Seq<char>, FileReferenceErrorView>(
                "<file path=\""@ + escaped(reference, true) + "\">\n"@ + escaped(
                    decode_utf8(bytes),
                    false,
                ) + "\n</file>"@,
            )
        }),
{
    let reference = seq!['@'] + path;
    assert(reference.skip(1) =~= path);
    paths_below_a_directory_begin_with_it(resolver.cwd + below, resolver.cwd);
    if let Some(sessions) = resolver.protected_sessions {
        paths_below_a_directory_begin_with_it(resolver.cwd + below, sessions);
    }
}

/// The path of a reference is taken relative to the working directory.
pub proof fn references_are_taken_from_the_working_directory(
    resolver: ResolverView,
    path: Seq<char>,
)
    requires
        path.len() > 0,
        path[0] != '/',
        path[0] != '~',
        !split(path, '/').contains(seq!['.', '.']),
        resolver.cwd_path.len() > 0,
        resolver.cwd_path.last() != '/',
    ensures
        candidate_path(resolver, seq!['@'] + path) == Ok::<Seq<char>, FileReferenceErrorView>(
            resolver.cwd_path + "/"@ + path,
        ),
{
    reveal_strlit("/");
    assert("/"@ =~= seq!['/']);
    assert((seq!['@'] + path).skip(1) =~= path);
}

/// What is refused, and why: an absolute path or one of a home directory, a path with `..`, one
/// that leads nowhere, outside of the working directory or to what is protected, and a file that is
/// not regular, too large, unreadable or not UTF-8. The first of these reasons counts.
pub proof fn refusals_name_their_reason(
    resolver: ResolverView,
    path: Seq<char>,
    canonical: Seq<Seq<u8>>,
    file: FileAccessView,
)
    requires
        path.len() > 0,
    ensures
        ({
            let reference = seq!['@'] + path;
            let typed = path[0] != '/' && path[0] != '~';
            let inside = typed && !split(path, '/').contains(seq!['.', '.']);
            let lookup = FileLookupView::Resolved { canonical, file };
            let outcome = expanded(resolver, reference, lookup);
            let below = exists|below: Seq<Seq<u8>>| canonical == #[trigger] (resolver.cwd + below);
            let protected = resolver.protected_config == Some(canonical) || (
            resolver.protected_sessions matches Some(sessions) && exists|inside: Seq<Seq<u8>>|
                canonical == #[trigger] (sessions + inside));
            &&& !typed ==> expanded(resolver, reference, lookup) == Err::<
                Seq<char>,
                FileReferenceErrorView,
            >(FileReferenceErrorView::NotRelative { reference })
            &&& typed && !inside ==> outcome == Err::<Seq<char>, FileReferenceErrorView>(
                FileReferenceErrorView::ParentDirectory { reference },
            )
            &&& inside ==> expanded(resolver, reference, FileLookupView::Unresolved) == Err::<
                Seq<char>,
                FileReferenceErrorView,
            >(FileReferenceErrorView::Canonicalize { reference })
            &&& inside && !below ==> outcome == Err::<Seq<char>, FileReferenceErrorView>(
                FileReferenceErrorView::OutsideWorkingDirectory { reference },
            )
            &&& inside && below && protected ==> outcome == Err::<
                Seq<char>,
                FileReferenceErrorView,
            >(FileReferenceErrorView::Protected { reference })
            &&& inside && below && !protected ==> (match file {
                FileAccessView::Unreadable => outcome == Err::<Seq<char>, FileReferenceErrorView>(
                    FileReferenceErrorView::Read { reference },
                ),
                FileAccessView::Opened { is_file, len, contents } => {
                    &&& !is_file ==> outcome == Err::<Seq<char>, FileReferenceErrorView>(
                        FileReferenceErrorView::NotRegular { reference },
                    )
                    &&& is_file && len > 1048576 ==> outcome == Err::<
                        Seq<char>,
                        FileReferenceErrorView,
                    >(FileReferenceErrorView::TooLarge { reference })
                    &&& is_file && len <= 1048576 ==> (match contents {
                        None => outcome == Err::<Seq<char>, FileReferenceErrorView>(
                            FileReferenceErrorView::Read { reference },
                        ),
                        Some(bytes) => {
                            &&& bytes.len() > 1048576 ==> outcome == Err::<
                                Seq<char>,
                                FileReferenceErrorView,
                            >(FileReferenceErrorView::TooLarge { reference })
                            &&& bytes.len() <= 1048576 && !valid_utf8(bytes) ==> outcome == Err::<
                                Seq<char>,
                                FileReferenceErrorView,
                            >(FileReferenceErrorView::NotUtf8 { reference })
                        },
                    })
                },
            })
        }),
{
    let reference = seq!['@'] + path;
    assert(reference.skip(1) =~= path);
    paths_below_a_directory_begin_with_it(canonical, resolver.cwd);
    if let Some(sessions) = resolver.protected_sessions {
        paths_below_a_directory_begin_with_it(canonical, sessions);
    }
}

/// A word is a reference exactly if it begins with an at-sign and goes on; then it becomes its
/// block, or its refusal refuses the prompt. Any other word stays. Together with the resolution
/// part by part this says what becomes of every prompt.
pub proof fn single_words_are_references_or_stay(
    resolver: ResolverView,
    word: Seq<char>,
    lookup: FileLookupView,
)
    requires
        word.len() > 0,
        forall|i: int| 0 <= i < word.len() ==> !is_whitespace(#[trigger] word[i]),
    ensures
        word.len() > 1 && word[0] == '@' ==> references_of(word) == seq![word] && resolved(
            resolver,
            word,
            seq![lookup],
        ) == expanded(resolver, word, lookup),
        !(word.len() > 1 && word[0] == '@') ==> references_of(word).len() == 0 && resolved(
            resolver,
            word,
            Seq::empty(),
        ) == Ok::<Seq<char>, FileReferenceErrorView>(word),
{
    lemma_word_len(word);
    let n = word_len(word);
    if n < word.len() {
        assert(is_whitespace(word[n]));
    }
    let segments = split_after_whitespace(word);
    assert(segments == seq![word]);
    assert(!is_whitespace(word[word.len() - 1]));
    assert(trim_end(word) == word);
    reveal_with_fuel(references_in, 2);
    reveal_with_fuel(resolved_segments, 2);
    assert(word.skip(word.len() as int) =~= Seq::<char>::empty());
    if is_reference(word) {
        assert(references_of(word) =~= seq![word]);
        match expanded(resolver, word, lookup) {
            Ok(block) => assert(Seq::<char>::empty() + block + Seq::<char>::empty() =~= block),
            Err(_) => {},
        }
    } else {
        assert(Seq::<char>::empty() + word =~= word);
    }
}

/// Every refusal names the reference, in quotes, or the directory that it is about.
pub proof fn refusals_name_the_reference(path: Seq<char>, reference: Seq<char>)
    ensures
        reference_error_message(FileReferenceErrorView::CurrentDirectory)
            == "could not resolve the current working directory"@,
        reference_error_message(FileReferenceErrorView::Root { path })
            == "could not resolve file-reference root "@ + path,
        reference_error_message(FileReferenceErrorView::Canonicalize { reference })
            == "could not resolve file reference "@ + debug_quoted(reference),
        reference_error_message(FileReferenceErrorView::Read { reference })
            == "could not read file reference "@ + debug_quoted(reference),
        ({
            let named = "file reference "@ + debug_quoted(reference);
            &&& reference_error_message(FileReferenceErrorView::NotRelative { reference }) == named
                + " must be relative to the current working directory"@
            &&& reference_error_message(FileReferenceErrorView::ParentDirectory { reference })
                == named + " must not contain `..`"@
            &&& reference_error_message(
                FileReferenceErrorView::OutsideWorkingDirectory { reference },
            ) == named + " resolves outside the current working directory"@
            &&& reference_error_message(FileReferenceErrorView::Protected { reference }) == named
                + " is protected"@
            &&& reference_error_message(FileReferenceErrorView::NotRegular { reference }) == named
                + " is not a regular file"@
            &&& reference_error_message(FileReferenceErrorView::TooLarge { reference }) == named
                + " exceeds the 1 MiB limit"@
            &&& reference_error_message(FileReferenceErrorView::NotUtf8 { reference }) == named
                + " is not valid UTF-8"@
        }),
{
}

/// A reference that was not looked up counts as one that could not be resolved.
pub proof fn missing_lookups_count_as_unresolved(lookups: Seq<FileLookupView>, i: int)
    requires
        0 <= i,
    ensures
        i < lookups.len() ==> lookup_at(lookups, i) == lookups[i],
        i >= lookups.len() ==> lookup_at(lookups, i) is Unresolved,
{
}

} // verus!
