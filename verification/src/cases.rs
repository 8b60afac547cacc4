use vstd::prelude::*;
use crate::api_alt_json_templates::{Package, names_distinct};
use crate::branches::Branch;
use crate::cases::fetch_only_packages_from_a_branch::{only_a_packages, only_a_spec};
use crate::cases::fetch_vr_more_in_a_than_b_branch::{
    fetch_vr_more_in_a_than_b_branch, has_strictly_older_namesake, is_older_version, vr_more_spec,
};

pub mod fetch_only_packages_from_a_branch;
pub mod fetch_vr_more_in_a_than_b_branch;

verus! {

/// The packages that only the selected branch (Sisyphus or p10) holds, given the
/// packages of both: those of `branch` whose name the other branch lacks.
pub fn fetch_only_packages_from_selected_branch(
    branch: Branch,
    sisyphus_packages: Vec<Package>,
    p10_packages: Vec<Package>,
) -> (only: Vec<Package>)
    requires
        branch == Branch::Sisyphus || branch == Branch::P10,
    ensures
        branch == Branch::Sisyphus ==> only@ == only_a_spec(sisyphus_packages@, p10_packages@),
        branch == Branch::P10 ==> only@ == only_a_spec(p10_packages@, sisyphus_packages@),
{
    match branch {
        Branch::P10 => only_a_packages(p10_packages, sisyphus_packages),
        _ => only_a_packages(sisyphus_packages, p10_packages),
    }
}

/// The Sisyphus packages whose version-release is greater than that of the p10 package
/// of the same name. Every package kept is older, seen from the other side too, than its
/// namesake in p10; when p10 names each package once, every p10 namesake is older than
/// the package kept; and identical lists give no newer package.
pub fn fetch_vr_more_in_sisyphus_than_p10(sisyphus_packages: Vec<Package>, p10_packages: Vec<Package>) -> (newer: Vec<Package>)
    ensures
        newer@ == vr_more_spec(sisyphus_packages@, p10_packages@),
        forall|i: int| 0 <= i < newer.len() ==> has_strictly_older_namesake(p10_packages@, #[trigger] newer@[i]@),
        names_distinct(p10_packages@) ==> forall|i: int, j: int|
            0 <= i < newer.len() && 0 <= j < p10_packages.len() && (#[trigger] p10_packages@[j])@.name == (
            #[trigger] newer@[i])@.name ==> is_older_version(p10_packages@[j]@, newer@[i]@),
        sisyphus_packages@ == p10_packages@ && names_distinct(p10_packages@) ==> newer@.len() == 0,
{
    fetch_vr_more_in_a_than_b_branch(sisyphus_packages, p10_packages)
}

} // verus!
