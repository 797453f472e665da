//! Deciding whether a published release is newer than the installed one.

use vstd::prelude::*;
use vstd::slice::slice_subrange;
use vstd::string::*;

use crate::text::{
    chars_of, decimal, decimal_text, is_whitespace, text_of, trim, trimmed,
    trimming_takes_off_the_whitespace_around,
};

verus! {

/// A semantic version.
#[derive(Debug, PartialEq, Eq)]
pub struct Version {
    major: u64,
    minor: u64,
    patch: u64,
    /// The pre-release identifiers; empty for a release.
    pre: String,
    /// The build metadata; empty where there is none.
    build: String,
}

/// The major, minor and patch numbers, the pre-release identifiers and the build metadata.
pub type VersionView = (u64, u64, u64, Seq<char>, Seq<char>);

impl View for Version {
    type V = VersionView;

    closed spec fn view(&self) -> VersionView {
        (self.major, self.minor, self.patch, self.pre@, self.build@)
    }
}

impl Clone for Version {
    fn clone(&self) -> (copy: Self)
        ensures
            copy@ == self@,
    {
        Version {
            major: self.major,
            minor: self.minor,
            patch: self.patch,
            pre: self.pre.clone(),
            build: self.build.clone(),
        }
    }
}

/// Three numbers, joined by dots.
pub open spec fn triple_text(major: u64, minor: u64, patch: u64) -> Seq<char> {
    decimal(major as nat) + seq!['.'] + decimal(minor as nat) + seq!['.'] + decimal(patch as nat)
}

/// The text of a version.
pub open spec fn version_text(version: VersionView) -> Seq<char> {
    triple_text(version.0, version.1, version.2) + (if version.3.len() == 0 {
        Seq::empty()
    } else {
        seq!['-'] + version.3
    }) + (if version.4.len() == 0 {
        Seq::empty()
    } else {
        seq!['+'] + version.4
    })
}

/// The error of the version parser.
#[verifier::external_type_specification]
#[verifier::external_body]
pub struct ExVersionError(semver::Error);

/// The version with the given text, or `None` where the text is no semantic version.
pub uninterp spec fn parsed_version(text: Seq<char>) -> Option<
    (u64, u64, u64, Seq<char>, Seq<char>),
>;

/// The first version is greater than the second in semver's order.
pub uninterp spec fn exceeds(
    left: (u64, u64, u64, Seq<char>, Seq<char>),
    right: (u64, u64, u64, Seq<char>, Seq<char>),
) -> bool;

/// `greater` is what the three numbers say, where they differ, and no version exceeds itself.
pub open spec fn follows_the_numbers(left: VersionView, right: VersionView, greater: bool) -> bool {
    &&& left.0 != right.0 ==> greater == (left.0 > right.0)
    &&& left.0 == right.0 && left.1 != right.1 ==> greater == (left.1 > right.1)
    &&& left.0 == right.0 && left.1 == right.1 && left.2 != right.2 ==> greater == (left.2
        > right.2)
    &&& left == right ==> !greater
}

/// `semver::Version::parse` accepts exactly the semantic versions. What it gives is the version
/// with that text, and three numbers without leading zeros, joined by dots, are accepted.
#[verifier::external_body]
fn parse_version(text: &str) -> (version: Result<Version, semver::Error>)
    ensures
        parsed_version(text@) == (match version {
            Ok(version) => Some(version@),
            Err(_) => None,
        }),
        version is Ok ==> version_text(version->Ok_0@) == text@,
        (exists|a: u64, b: u64, c: u64| text@ == #[trigger] triple_text(a, b, c)) ==> version is Ok,
{
    semver::Version::parse(text).map(|version| Version {
        major: version.major,
        minor: version.minor,
        patch: version.patch,
        pre: version.pre.as_str().to_owned(),
        build: version.build.as_str().to_owned(),
    })
}

/// `semver::Version` is ordered by its major, its minor and its patch number first, and no version
/// is greater than itself. What the pre-release identifiers and the build metadata decide between
/// versions with the same three numbers is left to the name.
#[verifier::external_body]
fn version_exceeds(left: &Version, right: &Version) -> (greater: bool)
    ensures
        greater == exceeds(left@, right@),
        follows_the_numbers(left@, right@, greater),
{
    let outside = |version: &Version| semver::Version {
        major: version.major,
        minor: version.minor,
        patch: version.patch,
        pre: semver::Prerelease::new(version.pre.as_str()).unwrap_or_default(),
        build: semver::BuildMetadata::new(version.build.as_str()).unwrap_or_default(),
    };
    outside(left) > outside(right)
}

impl Version {
    /// The release with the given three numbers.
    pub fn new(major: u64, minor: u64, patch: u64) -> (version: Self)
        ensures
            version@ == (major, minor, patch, Seq::<char>::empty(), Seq::<char>::empty()),
    {
        let version = Version { major, minor, patch, pre: String::new(), build: String::new() };
        assert(version@.3 =~= Seq::<char>::empty());
        assert(version@.4 =~= Seq::<char>::empty());
        version
    }

    /// The version with the given text, if it is one.
    pub fn parse(text: &str) -> (version: Option<Self>)
        ensures
            parsed_version(text@) == (match version {
                Some(version) => Some(version@),
                None => None,
            }),
            version is Some ==> version_text(version->Some_0@) == text@,
            (exists|a: u64, b: u64, c: u64| text@ == #[trigger] triple_text(a, b, c))
                ==> version is Some,
    {
        match parse_version(text) {
            Ok(version) => Some(version),
            Err(_) => None,
        }
    }

    /// Whether this version is greater than the other.
    pub fn exceeds(&self, other: &Version) -> (greater: bool)
        ensures
            greater == exceeds(self@, other@),
            follows_the_numbers(self@, other@, greater),
    {
        version_exceeds(self, other)
    }

    /// The version as text.
    pub fn text(&self) -> (text: String)
        ensures
            text@ == version_text(self@),
    {
        let mut text = decimal_text(self.major as u128);
        text.push('.');
        text.append(decimal_text(self.minor as u128).as_str());
        text.push('.');
        text.append(decimal_text(self.patch as u128).as_str());
        assert(text@ =~= triple_text(self.major, self.minor, self.patch));
        if !self.pre.as_str().is_empty() {
            text.push('-');
            text.append(self.pre.as_str());
        }
        if !self.build.as_str().is_empty() {
            text.push('+');
            text.append(self.build.as_str());
        }
        assert(text@ =~= version_text(self@));
        text
    }
}

/// A newer release than the installed one.
#[derive(Debug, PartialEq, Eq)]
pub struct UpdateNotice {
    pub installed: Version,
    pub available: Version,
    pub url: String,
}

/// The mathematical counterpart of `UpdateNotice`.
pub struct UpdateNoticeView {
    pub installed: VersionView,
    pub available: VersionView,
    pub url: Seq<char>,
}

impl View for UpdateNotice {
    type V = UpdateNoticeView;

    open spec fn view(&self) -> UpdateNoticeView {
        UpdateNoticeView {
            installed: self.installed@,
            available: self.available@,
            url: self.url@,
        }
    }
}

impl Clone for UpdateNotice {
    fn clone(&self) -> (copy: Self)
        ensures
            copy@ == self@,
    {
        UpdateNotice {
            installed: self.installed.clone(),
            available: self.available.clone(),
            url: self.url.clone(),
        }
    }
}

/// The error of an HTTP request.
#[verifier::external_type_specification]
#[verifier::external_body]
pub struct ExHttpError(reqwest::Error);

/// The error of the JSON parser.
#[verifier::external_type_specification]
#[verifier::external_body]
pub struct ExJsonError(serde_json::Error);

/// Why the latest release could not be determined.
#[derive(Debug)]
pub enum UpdateCheckError {
    Http(reqwest::Error),
    Json(serde_json::Error),
    InvalidInstalledVersion,
    InvalidReleaseVersion,
}

impl UpdateCheckError {
    /// The message shown to the user, the same for every error.
    pub fn message(&self) -> (text: String)
        ensures
            text@ == "update check failed"@,
    {
        "update check failed".to_owned()
    }
}

/// What the release service says of a release.
#[derive(Debug, PartialEq, Eq)]
pub struct Release {
    pub tag_name: String,
    pub html_url: String,
    pub draft: bool,
    pub prerelease: bool,
}

pub type UpdateResult = Result<Option<UpdateNotice>, UpdateCheckError>;

/// The tag without the letters `v` and `V` that it begins with.
pub open spec fn without_v(tag: Seq<char>) -> Seq<char>
    decreases tag.len(),
{
    if tag.len() > 0 && (tag[0] == 'v' || tag[0] == 'V') {
        without_v(tag.skip(1))
    } else {
        tag
    }
}

/// The version that a release's tag names.
pub open spec fn tagged_version(tag_name: Seq<char>) -> Seq<char> {
    without_v(trim(tag_name))
}

fn version_of_tag(tag_name: &str) -> (version: String)
    ensures
        version@ == tagged_version(tag_name@),
{
    let tag = trimmed(tag_name);
    let chars = chars_of(tag.as_str());
    let mut start: usize = 0;
    assert(chars@.skip(0) =~= chars@);
    while start < chars.len() && (chars[start] == 'v' || chars[start] == 'V')
        invariant
            start <= chars@.len(),
            without_v(chars@.skip(start as int)) == without_v(chars@),
        decreases chars@.len() - start,
    {
        assert(chars@.skip(start as int).skip(1) =~= chars@.skip(start + 1));
        start += 1;
    }
    let version = text_of(slice_subrange(chars.as_slice(), start, chars.len()));
    assert(version@ =~= chars@.skip(start as int));
    version
}

/// What a release means for the installed version, given the version that its tag names. Drafts
/// and pre-releases are ignored.
pub fn judge_release(release: Release, available: Option<Version>, installed: Version) -> (result:
    UpdateResult)
    ensures
        if release.draft || release.prerelease {
            result is Ok && result->Ok_0 is None
        } else {
            match available {
                None => result is Err && result->Err_0 is InvalidReleaseVersion,
                Some(available) => {
                    &&& result is Ok
                    &&& result->Ok_0 is Some <==> exceeds(available@, installed@)
                    &&& result->Ok_0 matches Some(notice) ==> notice@ == (UpdateNoticeView {
                        installed: installed@,
                        available: available@,
                        url: release.html_url@,
                    })
                    &&& follows_the_numbers(available@, installed@, result->Ok_0 is Some)
                },
            }
        },
{
    if release.draft || release.prerelease {
        return Ok(None);
    }
    let available = match available {
        Some(available) => available,
        None => {
            return Err(UpdateCheckError::InvalidReleaseVersion);
        },
    };
    if available.exceeds(&installed) {
        Ok(Some(UpdateNotice { installed, available, url: release.html_url }))
    } else {
        Ok(None)
    }
}

/// What the answer of the release service means for the installed version: the release, or the
/// error of reading it.
pub fn parse_release(release: Result<Release, serde_json::Error>, installed: Version) -> (result:
    UpdateResult)
    ensures
        match release {
            Err(error) => result is Err && result->Err_0 == UpdateCheckError::Json(error),
            Ok(release) => if release.draft || release.prerelease {
                result is Ok && result->Ok_0 is None
            } else {
                match parsed_version(tagged_version(release.tag_name@)) {
                    None => result is Err && result->Err_0 is InvalidReleaseVersion,
                    Some(available) => {
                        &&& result is Ok
                        &&& result->Ok_0 is Some <==> exceeds(available, installed@)
                        &&& result->Ok_0 matches Some(notice) ==> notice@ == (UpdateNoticeView {
                            installed: installed@,
                            available,
                            url: release.html_url@,
                        })
                        &&& follows_the_numbers(available, installed@, result->Ok_0 is Some)
                    },
                }
            },
        },
{
    let release = match release {
        Ok(release) => release,
        Err(error) => {
            return Err(UpdateCheckError::Json(error));
        },
    };
    if release.draft || release.prerelease {
        return Ok(None);
    }
    let tag = version_of_tag(release.tag_name.as_str());
    judge_release(release, Version::parse(tag.as_str()), installed)
}

/// What a request for the latest release means for the installed version, given as text: the
/// error of the request, or its answer.
pub fn check_latest_at(
    installed: &str,
    answer: Result<Result<Release, serde_json::Error>, reqwest::Error>,
) -> (result: UpdateResult)
    ensures
        match (parsed_version(installed@), answer) {
            (None, _) => result is Err && result->Err_0 is InvalidInstalledVersion,
            (Some(_), Err(error)) => result is Err && result->Err_0 == UpdateCheckError::Http(
                error,
            ),
            (Some(_), Ok(Err(error))) => result is Err && result->Err_0 == UpdateCheckError::Json(
                error,
            ),
            (Some(installed), Ok(Ok(release))) => if release.draft || release.prerelease {
                result is Ok && result->Ok_0 is None
            } else {
                match parsed_version(tagged_version(release.tag_name@)) {
                    None => result is Err && result->Err_0 is InvalidReleaseVersion,
                    Some(available) => {
                        &&& result is Ok
                        &&& result->Ok_0 is Some <==> exceeds(available, installed)
                        &&& result->Ok_0 matches Some(notice) ==> notice@ == (UpdateNoticeView {
                            installed,
                            available,
                            url: release.html_url@,
                        })
                        &&& follows_the_numbers(available, installed, result->Ok_0 is Some)
                    },
                }
            },
        },
{
    let installed = match Version::parse(installed) {
        Some(installed) => installed,
        None => {
            return Err(UpdateCheckError::InvalidInstalledVersion);
        },
    };
    match answer {
        Ok(release) => parse_release(release, installed),
        Err(error) => Err(UpdateCheckError::Http(error)),
    }
}

/// The version of a tag is what is left without the whitespace around the tag and the letters `v`
/// in front of it, in either case.
pub proof fn tags_name_their_version(
    before: Seq<char>,
    letters: Seq<char>,
    version: Seq<char>,
    after: Seq<char>,
)
    requires
        forall|i: int| 0 <= i < before.len() ==> is_whitespace(#[trigger] before[i]),
        forall|i: int| 0 <= i < after.len() ==> is_whitespace(#[trigger] after[i]),
        forall|i: int| 0 <= i < letters.len() ==> #[trigger] letters[i] == 'v' || letters[i] == 'V',
        version.len() > 0 ==> version[0] != 'v' && version[0] != 'V' && !is_whitespace(
            version.last(),
        ),
        version.len() > 0 && letters.len() == 0 ==> !is_whitespace(version[0]),
    ensures
        tagged_version(before + letters + version + after) == version,
{
    let tag = letters + version;
    assert(before + letters + version + after =~= before + tag + after);
    if letters.len() > 0 {
        assert(tag[0] == letters[0]);
    } else if version.len() > 0 {
        assert(tag[0] == version[0]);
    }
    if version.len() > 0 {
        assert(tag.last() == version.last());
    } else if letters.len() > 0 {
        assert(tag.last() == letters[letters.len() - 1]);
    }
    trimming_takes_off_the_whitespace_around(before, tag, after);
    lemma_without_v(letters, version);
}

proof fn lemma_without_v(letters: Seq<char>, version: Seq<char>)
    requires
        forall|i: int| 0 <= i < letters.len() ==> #[trigger] letters[i] == 'v' || letters[i] == 'V',
        version.len() > 0 ==> version[0] != 'v' && version[0] != 'V',
    ensures
        without_v(letters + version) == version,
    decreases letters.len(),
{
    let tag = letters + version;
    if letters.len() == 0 {
        assert(tag =~= version);
    } else {
        assert(tag[0] == letters[0]);
        assert(tag.skip(1) =~= letters.skip(1) + version);
        lemma_without_v(letters.skip(1), version);
    }
}

/// A version is written as its three numbers with dots between them, then a hyphen and the
/// pre-release, then a plus sign and the build, as far as there are any.
pub proof fn versions_are_written_in_full(
    major: u64,
    minor: u64,
    patch: u64,
    pre: Seq<char>,
    build: Seq<char>,
)
    ensures
        ({
            let none = Seq::<char>::empty();
            let numbers = decimal(major as nat) + "."@ + decimal(minor as nat) + "."@ + decimal(
                patch as nat,
            );
            &&& version_text((major, minor, patch, none, none)) == numbers
            &&& pre.len() > 0 ==> version_text((major, minor, patch, pre, none)) == numbers + "-"@
                + pre
            &&& build.len() > 0 ==> version_text((major, minor, patch, none, build)) == numbers
                + "+"@ + build
            &&& pre.len() > 0 && build.len() > 0 ==> version_text(
                (major, minor, patch, pre, build),
            ) == numbers + "-"@ + pre + "+"@ + build
        }),
{
    reveal_strlit(".");
    reveal_strlit("-");
    reveal_strlit("+");
    assert("."@ =~= seq!['.']);
    assert("-"@ =~= seq!['-']);
    assert("+"@ =~= seq!['+']);
    let none = Seq::<char>::empty();
    let numbers = triple_text(major, minor, patch);
    assert(version_text((major, minor, patch, none, none)) =~= numbers);
    assert(pre.len() > 0 ==> version_text((major, minor, patch, pre, none)) =~= numbers + "-"@
        + pre);
    assert(build.len() > 0 ==> version_text((major, minor, patch, none, build)) =~= numbers + "+"@
        + build);
    assert(pre.len() > 0 && build.len() > 0 ==> version_text((major, minor, patch, pre, build))
        =~= numbers + "-"@ + pre + "+"@ + build);
}

} // verus!
