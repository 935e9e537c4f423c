use vstd::prelude::*;
use crate::model::RawPackConfig;
use crate::text::{chars_of, string_of, trim, trim_chars};

verus! {

#[verifier::external_type_specification]
#[verifier::external_body]
pub struct ExSemverVersion(semver::Version);

/// A semantic version as the pack logic reads it: its numbers, its pre-release
/// and build texts, and the parsed value they came from.
#[derive(Debug)]
pub struct SemVersion {
    major: u64,
    minor: u64,
    patch: u64,
    pre: String,
    build: String,
    parsed: semver::Version,
}

/// The mathematical value of a `SemVersion`.
pub struct SemView {
    pub major: u64,
    pub minor: u64,
    pub patch: u64,
    pub pre: Seq<char>,
    pub build: Seq<char>,
}

impl View for SemVersion {
    type V = SemView;

    closed spec fn view(&self) -> SemView {
        SemView {
            major: self.major,
            minor: self.minor,
            patch: self.patch,
            pre: self.pre@,
            build: self.build@,
        }
    }
}

impl SemVersion {
    pub fn major(&self) -> (r: u64)
        ensures
            r == self@.major,
    {
        self.major
    }

    pub fn minor(&self) -> (r: u64)
        ensures
            r == self@.minor,
    {
        self.minor
    }

    pub fn patch(&self) -> (r: u64)
        ensures
            r == self@.patch,
    {
        self.patch
    }

    pub fn pre(&self) -> (r: String)
        ensures
            r@ == self@.pre,
    {
        self.pre.clone()
    }

    pub fn build(&self) -> (r: String)
        ensures
            r@ == self@.build,
    {
        self.build.clone()
    }
}

/// Name for what `semver::Version::parse` gives for a text: the version's parts,
/// or the text of the parser's error.
pub uninterp spec fn semver_parse(text: Seq<char>) -> Result<SemView, Seq<char>>;

/// Name for `<` on two parsed versions (semver's `Ord`).
pub uninterp spec fn semver_less(a: SemView, b: SemView) -> bool;

/// The view of a parse result.
pub open spec fn parse_view(r: Result<SemVersion, String>) -> Result<SemView, Seq<char>> {
    match r {
        Ok(v) => Ok(v@),
        Err(m) => Err(m@),
    }
}

/// `semver::Version::parse`. Trusted: the result is the crate's reading of the
/// text (a function of the text alone), given back as its major, minor and patch
/// numbers and its pre-release and build texts, or the text of its error.
#[verifier::external_body]
fn semver_parse_exec(text: &str) -> (r: Result<SemVersion, String>)
    ensures
        parse_view(r) == semver_parse(text@),
{
    match semver::Version::parse(text) {
        Ok(v) => Ok(
            SemVersion {
                major: v.major,
                minor: v.minor,
                patch: v.patch,
                pre: v.pre.as_str().to_string(),
                build: v.build.as_str().to_string(),
                parsed: v,
            },
        ),
        Err(e) => Err(e.to_string()),
    }
}

/// Lexicographic order of major, minor and patch.
pub open spec fn core_less(a: SemView, b: SemView) -> bool {
    ||| a.major < b.major
    ||| (a.major == b.major && a.minor < b.minor)
    ||| (a.major == b.major && a.minor == b.minor && a.patch < b.patch)
}

/// `<` on `semver::Version`. Trusted: the result is the crate's order of the two
/// versions (a function of their parts); as `derive(Ord)` on the struct shows, it
/// orders by major, minor and patch first. How pre-release and build texts order
/// versions with equal numbers is not stated.
#[verifier::external_body]
fn version_less(a: &SemVersion, b: &SemVersion) -> (r: bool)
    ensures
        r == semver_less(a@, b@),
        core_less(a@, b@) ==> r,
        core_less(b@, a@) ==> !r,
{
    a.parsed < b.parsed
}

/// The version of this manager.
pub open spec fn app_version() -> Seq<char> {
    seq!['0', '.', '1', '.', '0']
}

/// The version of this manager (`current_app_version`).
pub fn current_app_version() -> (r: &'static str)
    ensures
        r@ == app_version(),
{
    let v = "0.1.0";
    proof {
        reveal_strlit("0.1.0");
    }
    v
}

/// The version of this manager (`current_app_version_text`).
pub fn current_app_version_text() -> (r: &'static str)
    ensures
        r@ == app_version(),
{
    current_app_version()
}

/// Parses a version text (`parse_version_text`); the error is the parser's message.
pub fn parse_version_text(raw: &str) -> (r: Result<SemVersion, String>)
    ensures
        parse_view(r) == semver_parse(raw@),
{
    semver_parse_exec(raw)
}

/// Why a pack's minimum manager version refuses it.
#[derive(Debug)]
pub enum VersionError {
    /// `Requirements.MinVersion` does not parse (the trimmed text, the message).
    InvalidMinVersion { text: String, message: String },
    /// This manager's own version does not parse (the text, the message).
    InvalidAppVersion { text: String, message: String },
    /// This manager is older than the pack requires.
    AppTooOld { current: SemVersion, required: SemVersion },
}

/// The mathematical value of a `VersionError`.
pub enum VersionFault {
    InvalidMinVersion(Seq<char>, Seq<char>),
    InvalidAppVersion(Seq<char>, Seq<char>),
    AppTooOld(SemView, SemView),
}

impl View for VersionError {
    type V = VersionFault;

    open spec fn view(&self) -> VersionFault {
        match self {
            VersionError::InvalidMinVersion { text, message } => VersionFault::InvalidMinVersion(
                text@,
                message@,
            ),
            VersionError::InvalidAppVersion { text, message } => VersionFault::InvalidAppVersion(
                text@,
                message@,
            ),
            VersionError::AppTooOld { current, required } => VersionFault::AppTooOld(
                current@,
                required@,
            ),
        }
    }
}

/// What the minimum-version check gives for a trimmed, non-blank requirement.
pub open spec fn min_version_outcome(required_text: Seq<char>) -> Result<(), VersionFault> {
    match semver_parse(required_text) {
        Err(m) => Err(VersionFault::InvalidMinVersion(required_text, m)),
        Ok(required) => match semver_parse(app_version()) {
            Err(m) => Err(VersionFault::InvalidAppVersion(app_version(), m)),
            Ok(current) => if semver_less(current, required) {
                Err(VersionFault::AppTooOld(current, required))
            } else {
                Ok(())
            },
        },
    }
}

/// The minimum-version check of a pack: a missing or blank `MinVersion` passes.
pub open spec fn min_version_check(min: Option<String>) -> Result<(), VersionFault> {
    match min {
        None => Ok(()),
        Some(m) => if trim(m@).len() == 0 {
            Ok(())
        } else {
            min_version_outcome(trim(m@))
        },
    }
}

/// Refuses a pack whose `Requirements.MinVersion` is newer than this manager
/// (`validate_min_app_version`).
pub fn validate_min_app_version(config: &RawPackConfig) -> (r: Result<(), VersionError>)
    ensures
        match r {
            Ok(()) => min_version_check(config.requirements.min_version) == Ok::<(), VersionFault>(()),
            Err(e) => min_version_check(config.requirements.min_version) == Err::<(), VersionFault>(e@),
        },
{
    let raw = match &config.requirements.min_version {
        None => {
            return Ok(());
        },
        Some(m) => m,
    };
    let chars = chars_of(raw.as_str());
    let t = trim_chars(&chars);
    if t.len() == 0 {
        return Ok(());
    }
    let required_text = string_of(t.as_slice());
    let required = match parse_version_text(required_text.as_str()) {
        Ok(v) => v,
        Err(message) => {
            return Err(VersionError::InvalidMinVersion { text: required_text, message });
        },
    };
    let current_text = current_app_version();
    let current = match parse_version_text(current_text) {
        Ok(v) => v,
        Err(message) => {
            let text = string_of(chars_of(current_text).as_slice());
            return Err(VersionError::InvalidAppVersion { text, message });
        },
    };
    if version_less(&current, &required) {
        return Err(VersionError::AppTooOld { current, required });
    }
    Ok(())
}

/// Why a remote package cannot be installed here: the version it requires, when
/// this manager is older (`package_incompatible_reason`). A blank requirement, or
/// one that does not parse, gives none.
pub open spec fn incompatible_spec(min_version: Seq<char>) -> Option<SemView> {
    let t = trim(min_version);
    if t.len() == 0 {
        None
    } else {
        match semver_parse(t) {
            Err(_) => None,
            Ok(required) => match semver_parse(app_version()) {
                Err(_) => None,
                Ok(current) => if semver_less(current, required) {
                    Some(required)
                } else {
                    None
                },
            },
        }
    }
}

/// The version a remote package requires, when this manager is older than it.
pub fn package_incompatible_reason(min_version: &str) -> (r: Option<SemVersion>)
    ensures
        match r {
            Some(v) => incompatible_spec(min_version@) == Some(v@),
            None => incompatible_spec(min_version@) is None,
        },
{
    let chars = chars_of(min_version);
    let t = trim_chars(&chars);
    if t.len() == 0 {
        return None;
    }
    let text = string_of(t.as_slice());
    let required = match parse_version_text(text.as_str()) {
        Ok(v) => v,
        Err(_) => {
            return None;
        },
    };
    let current = match parse_version_text(current_app_version_text()) {
        Ok(v) => v,
        Err(_) => {
            return None;
        },
    };
    if version_less(&current, &required) {
        Some(required)
    } else {
        None
    }
}

} // verus!
