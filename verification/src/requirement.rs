use vstd::prelude::*;

use crate::version::semver_parse;

verus! {

/// Whether a version-requirement string is well-formed; what
/// `semver::VersionReq::parse` accepts.
pub uninterp spec fn req_ok(req: Seq<char>) -> bool;

/// Whether the version named by `vers` satisfies the requirement named
/// by `req`; what `semver::VersionReq::matches` decides. Meaningful only
/// when `req_ok(req)` holds and `vers` is a semantic version.
pub uninterp spec fn req_match(req: Seq<char>, vers: Seq<char>) -> bool;

/// Relies on `semver::VersionReq::parse`: whether the requirement string
/// is well-formed; success depends on the string alone.
#[verifier::external_body]
pub(crate) fn requirement_is_valid(req: &str) -> (r: bool)
    ensures
        r == req_ok(req@),
{
    semver::VersionReq::parse(req).is_ok()
}

/// Relies on `semver::VersionReq::matches`, after `VersionReq::parse`,
/// known here to succeed, and `semver::Version::parse`: whether the
/// version satisfies the requirement; a string that is no semantic
/// version satisfies nothing. The result depends on the two strings
/// alone.
#[verifier::external_body]
pub(crate) fn requirement_matches(req: &str, vers: &str) -> (r: bool)
    requires
        req_ok(req@),
    ensures
        r == (semver_parse(vers@) is Some && req_match(req@, vers@)),
{
    let parsed_req = semver::VersionReq::parse(req).expect("well-formed by contract");
    match semver::Version::parse(vers) {
        Ok(parsed_vers) => parsed_req.matches(&parsed_vers),
        Err(_) => false,
    }
}

} // verus!
