use vstd::prelude::*;
use crate::api_alt_json_templates::Package;
use crate::architecture_support::Arch;
use crate::branches::Branch;

pub mod api_alt_json_templates;
pub mod architecture_support;
pub mod branches;
pub mod cases;
pub mod decimal;

verus! {

/// Why the packages of a branch could not be had.
#[derive(Debug)]
pub enum FetchError {
    /// The branch ships no packages for the architecture.
    ArchNotSupported { branch: String, arch: String },
    /// The request or the decoding of its answer failed; the text says how.
    Other(String),
}

/// The error reported when `branch` ships no packages for `arch`.
pub open spec fn arch_not_supported(error: FetchError, branch: Branch, arch: Seq<char>) -> bool {
    error matches FetchError::ArchNotSupported { branch: b, arch: a } && b@ == branch.name_view() && a@ == arch
}

/// Decides, from whether the database supports `arch` for `branch`, whether the packages
/// may be fetched: `Ok` when it does, else the `ArchNotSupported` error naming both.
pub fn check_architecture_support(branch: Branch, arch: &Arch, supported: bool) -> (checked: Result<(), FetchError>)
    ensures
        supported ==> checked is Ok,
        !supported ==> (checked matches Err(e) && arch_not_supported(e, branch, arch@)),
{
    if supported {
        Ok(())
    } else {
        Err(FetchError::ArchNotSupported {
            branch: branch.as_str().to_owned(),
            arch: arch.inner_ref().to_owned(),
        })
    }
}

/// Turns the outcome of a package request into the library's result: the packages as
/// they came, or the failure's text as `FetchError::Other`.
pub fn packages_from_response(response: Result<Vec<Package>, String>) -> (packages: Result<Vec<Package>, FetchError>)
    ensures
        response matches Ok(p) ==> (packages matches Ok(q) && q@ == p@),
        response matches Err(text) ==> (packages matches Err(FetchError::Other(t)) && t@ == text@),
{
    match response {
        Ok(packages) => Ok(packages),
        Err(text) => Err(FetchError::Other(text)),
    }
}

/// What a comparison falls back on when the packages of a branch could not be had:
/// the given `fallback` packages, unchanged.
pub fn handle_fetch_error(error: FetchError, fallback: Vec<Package>) -> (packages: Vec<Package>)
    ensures
        packages@ == fallback@,
{
    fallback
}

/// The packages reported for a comparison that failed: none.
pub fn fetch_error_for_output(error: FetchError) -> (packages: Vec<Package>)
    ensures
        packages@ == Seq::<Package>::empty(),
{
    handle_fetch_error(error, Vec::new())
}

} // verus!
