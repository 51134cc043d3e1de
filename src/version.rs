use vstd::prelude::*;

use crate::error::ConfigError;

verus! {

/// Whether `semver::Version::parse` accepts the text.
pub uninterp spec fn semver_valid(s: Seq<char>) -> bool;

/// Whether the version parsed from `a` has higher semver precedence than the one
/// parsed from `b`.
pub uninterp spec fn semver_newer(a: Seq<char>, b: Seq<char>) -> bool;

pub open spec fn is_sha_char(c: char) -> bool {
    ('0' <= c && c <= '9') || ('a' <= c && c <= 'f') || c == '-'
}

/// Forty characters, each a lower-case hex digit or a hyphen.
pub open spec fn is_git_sha(s: Seq<char>) -> bool {
    s.len() == 40 && forall|i: int| 0 <= i < s.len() ==> #[trigger] is_sha_char(s[i])
}

/// Relies on `semver::Version::parse`: whether it accepts the text.
#[verifier::external_body]
fn semver_parses(s: &str) -> (r: bool)
    ensures
        r == semver_valid(s@),
{
    semver::Version::parse(s).is_ok()
}

/// Relies on `semver::Version::parse` and `semver::Version::cmp_precedence`: whether
/// the first version has higher precedence than the second (build metadata does not
/// count). No version has higher precedence than itself.
#[verifier::external_body]
fn semver_orders_after(a: &str, b: &str) -> (r: bool)
    requires
        semver_valid(a@),
        semver_valid(b@),
    ensures
        r == semver_newer(a@, b@),
        a@ == b@ ==> !r,
{
    semver::Version::parse(a).unwrap().cmp_precedence(&semver::Version::parse(b).unwrap()).is_gt()
}

/// Relies on `regex::Regex::is_match` with the pattern `^[0-9a-f\-]{40}$`, which
/// accepts exactly forty characters that are each a lower-case hex digit or a hyphen.
#[verifier::external_body]
fn matches_git_sha(s: &str) -> (r: bool)
    ensures
        r == is_git_sha(s@),
{
    regex::Regex::new(r"^[0-9a-f\-]{40}$").unwrap().is_match(s)
}

/// A semantic version, kept as the text it was read from.
pub struct Version {
    text: String,
}

impl View for Version {
    type V = Seq<char>;

    closed spec fn view(&self) -> Seq<char> {
        self.text@
    }
}

impl Version {
    #[verifier::type_invariant]
    spec fn inv(&self) -> bool {
        semver_valid(self.text@)
    }

    /// The version written in `s`, if it is one.
    pub fn parse(s: &str) -> (r: Option<Version>)
        ensures
            r is Some <==> semver_valid(s@),
            r matches Some(v) ==> v@ == s@,
    {
        if semver_parses(s) {
            Some(Version { text: String::from_str(s) })
        } else {
            None
        }
    }

    pub fn as_str(&self) -> (r: &str)
        ensures
            r@ == self@,
    {
        self.text.as_str()
    }

    /// Whether this version orders after `other`.
    pub fn is_newer_than(&self, other: &Version) -> (r: bool)
        ensures
            r == semver_newer(self@, other@),
    {
        proof {
            use_type_invariant(self);
            use_type_invariant(other);
        }
        semver_orders_after(self.text.as_str(), other.text.as_str())
    }
}

impl Clone for Version {
    fn clone(&self) -> (r: Version)
        ensures
            r@ == self@,
    {
        proof {
            use_type_invariant(self);
        }
        Version { text: self.text.clone() }
    }
}

/// How the version tags deployed in a region are checked.
#[derive(Debug, Clone, Copy, PartialEq, Eq, Structural)]
pub enum VersionScheme {
    /// A tag must be a semver version (no leading `v`).
    Semver,
    /// A tag must be a semver version or a forty character git sha.
    GitShaOrSemver,
}

impl Default for VersionScheme {
    fn default() -> (r: VersionScheme)
        ensures
            r == VersionScheme::Semver,
    {
        VersionScheme::Semver
    }
}

impl VersionScheme {
    /// Whether the scheme accepts the tag.
    pub open spec fn accepts(self, ver: Seq<char>) -> bool {
        match self {
            VersionScheme::Semver => semver_valid(ver),
            VersionScheme::GitShaOrSemver => is_git_sha(ver) || semver_valid(ver),
        }
    }

    pub fn verify(&self, ver: &str) -> (r: Result<(), ConfigError>)
        ensures
            r is Ok <==> self.accepts(ver@),
            r matches Err(e) ==> match *self {
                VersionScheme::Semver => e matches ConfigError::NotSemver(t) && t@ == ver@,
                VersionScheme::GitShaOrSemver => e matches ConfigError::IllegalTag(t) && t@
                    == ver@,
            },
    {
        match self {
            VersionScheme::GitShaOrSemver => {
                if !matches_git_sha(ver) && !semver_parses(ver) {
                    return Err(ConfigError::IllegalTag(String::from_str(ver)));
                }
            },
            VersionScheme::Semver => {
                if !semver_parses(ver) {
                    return Err(ConfigError::NotSemver(String::from_str(ver)));
                }
            },
        }
        Ok(())
    }
}

/// The lines of a text, as `str::lines` splits them.
pub uninterp spec fn lines_of(text: Seq<char>) -> Seq<Seq<char>>;

/// What `^version:\s*(?P<version>.+)$` captures as `version` in a line, where it matches.
pub uninterp spec fn version_capture(line: Seq<char>) -> Option<Seq<char>>;

/// Relies on `str::lines`: the lines of the text, without their line endings.
#[verifier::external_body]
fn text_lines(text: &str) -> (r: Vec<String>)
    ensures
        r@.map_values(|l: String| l@) == lines_of(text@),
{
    text.lines().map(|l| l.to_string()).collect()
}

/// Relies on `regex::Regex::captures` with `^version:\s*(?P<version>.+)$`: the text of
/// the `version` group where the line matches. A line that matches starts with
/// `version:`.
#[verifier::external_body]
fn captured_version(line: &str) -> (r: Option<String>)
    ensures
        match r {
            Some(v) => version_capture(line@) == Some(v@),
            None => version_capture(line@) is None,
        },
        r is Some ==> line@.len() >= 8 && line@.subrange(0, 8) == "version:"@,
{
    let re = regex::Regex::new(r"^version:\s*(?P<version>.+)$").unwrap();
    re.captures(line).map(|c| c["version"].to_string())
}

/// Whether the line declares a version newer than `current`.
pub open spec fn declares_newer(line: Seq<char>, current: Seq<char>) -> bool {
    match version_capture(line) {
        Some(v) => newer_text(v, current),
        None => false,
    }
}

/// Whether the text is a version newer than `current`.
pub open spec fn newer_text(v: Seq<char>, current: Seq<char>) -> bool {
    semver_valid(v) && semver_newer(v, current)
}

/// Whether the value of a `version:` line is a version newer than `current`.
pub fn declared_is_newer(declared: &str, current: &Version) -> (r: bool)
    ensures
        r == newer_text(declared@, current@),
{
    match Version::parse(declared) {
        Some(v) => v.is_newer_than(current),
        None => false,
    }
}

/// The first version that a text declares, on a line of its own, that is newer
/// than `current`. Where a configuration text fails to load, that is the likelier
/// cause.
pub fn declares_newer_version(data: &str, current: &Version) -> (r: Option<String>)
    ensures
        r is Some <==> exists|i: int|
            0 <= i < lines_of(data@).len() && declares_newer(#[trigger] lines_of(data@)[i], current@),
        r matches Some(v) ==> exists|i: int|
            0 <= i < lines_of(data@).len() && version_capture(#[trigger] lines_of(data@)[i])
                == Some(v@) && semver_newer(v@, current@),
{
    let lines = text_lines(data);
    let n = lines.len();
    let mut i: usize = 0;
    while i < n
        invariant
            n == lines@.len(),
            i <= n,
            lines@.map_values(|l: String| l@) == lines_of(data@),
            forall|k: int| 0 <= k < i ==> !declares_newer(#[trigger] lines_of(data@)[k], current@),
        decreases n - i,
    {
        proof {
            assert(lines@.map_values(|l: String| l@)[i as int] == lines@[i as int]@);
        }
        match captured_version(lines[i].as_str()) {
            Some(v) => {
                if declared_is_newer(v.as_str(), current) {
                    proof {
                        assert(declares_newer(lines_of(data@)[i as int], current@));
                    }
                    return Some(v);
                }
            },
            None => {},
        }
        i = i + 1;
    }
    None
}

} // verus!
