//! Toolchain and compiler versions as plain numbers, read with the `semver` crate.
use vstd::prelude::*;

use crate::text::{trim, trimmed};

verus! {

/// A semantic version: its three numbers, and whether it carries a
/// pre-release tag (`-dev.1`) or build metadata (`+abc`).
#[derive(Clone, Copy, Debug, PartialEq, Eq, Structural)]
pub struct Version {
    pub major: u64,
    pub minor: u64,
    pub patch: u64,
    pub pre_release: bool,
    pub build_metadata: bool,
}

/// What `semver::Version::parse` yields for `s`, as plain values.
pub uninterp spec fn semver_parsed(s: Seq<char>) -> Option<Version>;

/// Relies on `semver::Version::parse`: reads a version string, or fails.
#[verifier::external_body]
fn parse_semver(s: &str) -> (r: Option<Version>)
    ensures
        r == semver_parsed(s@),
{
    let v = semver::Version::parse(s).ok()?;
    Some(Version {
        major: v.major,
        minor: v.minor,
        patch: v.patch,
        pre_release: !v.pre.is_empty(),
        build_metadata: !v.build.is_empty(),
    })
}

/// `(v.major, v.minor) >= (major, minor)`.
pub open spec fn at_least_minor(v: Version, major: u64, minor: u64) -> bool {
    v.major > major || (v.major == major && v.minor >= minor)
}

/// `v >= major.minor.patch` in semantic-version precedence.
pub open spec fn at_least_release(v: Version, major: u64, minor: u64, patch: u64) -> bool {
    v.major > major || (v.major == major && (v.minor > minor || (v.minor == minor && (v.patch
        > patch || (v.patch == patch && !v.pre_release)))))
}

/// `v > major.minor.patch` in semantic-version precedence (build metadata
/// orders a version after the same release without it).
pub open spec fn above_release(v: Version, major: u64, minor: u64, patch: u64) -> bool {
    v.major > major || (v.major == major && (v.minor > minor || (v.minor == minor && (v.patch
        > patch || (v.patch == patch && !v.pre_release && v.build_metadata)))))
}

impl Version {
    /// `(self.major, self.minor) >= (major, minor)`.
    pub fn at_least_minor(&self, major: u64, minor: u64) -> (r: bool)
        ensures
            r == at_least_minor(*self, major, minor),
    {
        self.major > major || (self.major == major && self.minor >= minor)
    }

    /// `self >= major.minor.patch` in semantic-version precedence.
    pub fn at_least_release(&self, major: u64, minor: u64, patch: u64) -> (r: bool)
        ensures
            r == at_least_release(*self, major, minor, patch),
    {
        if self.major != major {
            return self.major > major;
        }
        if self.minor != minor {
            return self.minor > minor;
        }
        if self.patch != patch {
            return self.patch > patch;
        }
        !self.pre_release
    }

    /// `self > major.minor.patch` in semantic-version precedence.
    pub fn above_release(&self, major: u64, minor: u64, patch: u64) -> (r: bool)
        ensures
            r == above_release(*self, major, minor, patch),
    {
        if self.major != major {
            return self.major > major;
        }
        if self.minor != minor {
            return self.minor > minor;
        }
        if self.patch != patch {
            return self.patch > patch;
        }
        !self.pre_release && self.build_metadata
    }
}

/// Why a toolchain version was refused.
#[derive(Clone, Copy, Debug, PartialEq, Eq, Structural)]
pub enum VersionError {
    /// The text is not a semantic version.
    Unparsable,
    /// The version is older than the minimum supported one.
    TooOld(Version),
}

/// Reads a version string surrounded by whitespace, as tools print it.
pub fn parse_version(text: &str) -> (r: Option<Version>)
    ensures
        r == semver_parsed(trimmed(text@)),
{
    let t = trim(text);
    parse_semver(t.as_str())
}

/// Checks the version that the external toolchain reports: it must parse and
/// be at least `0.9.0`.
pub fn validate_zig_version(version: &str) -> (r: Result<Version, VersionError>)
    ensures
        match semver_parsed(trimmed(version@)) {
            None => r == Err::<Version, VersionError>(VersionError::Unparsable),
            Some(v) => if at_least_release(v, 0, 9, 0) {
                r == Ok::<Version, VersionError>(v)
            } else {
                r == Err::<Version, VersionError>(VersionError::TooOld(v))
            },
        },
{
    match parse_version(version) {
        None => Err(VersionError::Unparsable),
        Some(v) => {
            if v.at_least_release(0, 9, 0) {
                Ok(v)
            } else {
                Err(VersionError::TooOld(v))
            }
        },
    }
}

} // verus!
