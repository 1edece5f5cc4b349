use crate::error::AnalysisError;
use vstd::prelude::*;

verus! {

/// The error of the `semver` crate, of which nothing is read.
#[verifier::external_type_specification]
#[verifier::external_body]
pub struct ExVersionError(semver::Error);

/// The canonical text of the version that `text` denotes under Semantic
/// Versioning, or `None` where `text` denotes no version.
pub uninterp spec fn semver_text(text: Seq<char>) -> Option<Seq<char>>;

/// Parses `text` with `semver::Version::parse` and prints the version back
/// with its `Display`.
///
/// Trusted: that the call fails exactly on the texts that `semver_text` maps
/// to `None`, and that what is printed is a function of `text` alone, the one
/// that `semver_text` names. Nothing is claimed of which texts are versions.
#[verifier::external_body]
fn parse_version(text: &str) -> (r: Result<String, semver::Error>)
    ensures
        match r {
            Ok(canonical) => semver_text(text@) == Some(canonical@),
            Err(_) => semver_text(text@) is None,
        },
{
    match semver::Version::parse(text) {
        Ok(version) => Ok(version.to_string()),
        Err(error) => Err(error),
    }
}

/// The canonical text of a version. A package is looked up in the manifest
/// by it, so that two ways of writing one version find the same package.
///
/// The error is `MalformedInput`, and it comes exactly if `text` is no version
/// under Semantic Versioning.
pub fn canonical_version(text: &String) -> (r: Result<String, AnalysisError>)
    ensures
        match r {
            Ok(canonical) => semver_text(text@) == Some(canonical@),
            Err(e) => e == AnalysisError::MalformedInput && semver_text(text@) is None,
        },
{
    match parse_version(text.as_str()) {
        Ok(canonical) => Ok(canonical),
        Err(_) => Err(AnalysisError::MalformedInput),
    }
}

} // verus!
