//! Whether the book tool that invokes this program is one it was built for.
use vstd::prelude::*;

verus! {

#[verifier::external_type_specification]
#[verifier::external_body]
pub struct ExVersion(semver::Version);

#[verifier::external_type_specification]
#[verifier::external_body]
pub struct ExVersionReq(semver::VersionReq);

#[verifier::external_type_specification]
#[verifier::external_body]
pub struct ExSemverError(semver::Error);

/// Whether a text is a version in the sense of Semantic Versioning.
pub uninterp spec fn version_parses(text: Seq<char>) -> bool;

/// Whether a text is a version requirement as Cargo writes them.
pub uninterp spec fn requirement_parses(text: Seq<char>) -> bool;

/// Relies on `semver::Version::parse`: whether it succeeds depends on the text alone.
#[verifier::external_body]
fn parse_version(text: &str) -> (r: Result<semver::Version, semver::Error>)
    ensures
        r.is_ok() == version_parses(text@),
{
    semver::Version::parse(text)
}

/// Relies on `semver::VersionReq::parse`: whether it succeeds depends on the text alone.
#[verifier::external_body]
fn parse_requirement(text: &str) -> (r: Result<semver::VersionReq, semver::Error>)
    ensures
        r.is_ok() == requirement_parses(text@),
{
    semver::VersionReq::parse(text)
}

/// Relies on `semver::VersionReq::matches`, of which nothing is claimed here.
pub assume_specification[ semver::VersionReq::matches ](
    req: &semver::VersionReq,
    version: &semver::Version,
) -> bool;

/// Why two version texts could not be compared.
#[derive(Clone, Copy, Debug, PartialEq, Eq, Structural)]
pub enum VersionError {
    /// The running tool's version is not a version.
    BadVersion,
    /// The requirement is not a version requirement.
    BadRequirement,
}

/// Whether the version of the running book tool meets the requirement this
/// program was built against. A text that does not parse is an error; the
/// version is read first.
pub fn book_version_compatible(book_version: &str, requirement: &str) -> (r: Result<bool, VersionError>)
    ensures
        !version_parses(book_version@) ==> r == Err::<bool, VersionError>(VersionError::BadVersion),
        version_parses(book_version@) && !requirement_parses(requirement@) ==> r == Err::<
            bool,
            VersionError,
        >(VersionError::BadRequirement),
        version_parses(book_version@) && requirement_parses(requirement@) ==> r is Ok,
{
    let version = match parse_version(book_version) {
        Ok(v) => v,
        Err(_) => return Err(VersionError::BadVersion),
    };
    let req = match parse_requirement(requirement) {
        Ok(q) => q,
        Err(_) => return Err(VersionError::BadRequirement),
    };
    Ok(req.matches(&version))
}

} // verus!
