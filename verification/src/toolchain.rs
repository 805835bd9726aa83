use vstd::prelude::*;

verus! {

/// Whether a string is a well-formed minimum-supported-toolchain
/// constraint; what `RustVersion::from_str` accepts.
pub uninterp spec fn rust_version_ok(s: Seq<char>) -> bool;

/// Whether the toolchain version (major, minor, patch) satisfies the
/// constraint; what `RustVersion::is_compatible_with` decides.
/// Meaningful only when `rust_version_ok(msv)` holds.
pub uninterp spec fn rust_version_compat(msv: Seq<char>, major: int, minor: int, patch: int) -> bool;

/// Relies on `cargo_util_schemas::manifest::RustVersion::from_str`:
/// whether the constraint string parses; success depends on the string
/// alone.
#[verifier::external_body]
pub(crate) fn rust_version_is_valid(s: &str) -> (r: bool)
    ensures
        r == rust_version_ok(s@),
{
    s.parse::<cargo_util_schemas::manifest::RustVersion>().is_ok()
}

/// Relies on `cargo_util_schemas::manifest::RustVersion::is_compatible_with`,
/// after `RustVersion::from_str`, known here to succeed: whether the
/// given toolchain version satisfies the constraint; the result depends
/// on the arguments alone.
#[verifier::external_body]
pub(crate) fn rust_version_compatible(msv: &str, major: u64, minor: u64, patch: u64) -> (r: bool)
    requires
        rust_version_ok(msv@),
    ensures
        r == rust_version_compat(msv@, major as int, minor as int, patch as int),
{
    let constraint: cargo_util_schemas::manifest::RustVersion =
        msv.parse().expect("well-formed by contract");
    let toolchain = cargo_util_schemas::core::PartialVersion {
        major,
        minor: Some(minor),
        patch: Some(patch),
        pre: None,
        build: None,
    };
    constraint.is_compatible_with(&toolchain)
}

} // verus!
