use vstd::prelude::*;
use crate::api_alt_json_templates::{Package, package_archs};
use crate::branches::Branch;

verus! {

/// The address of the ALT Linux database export of a branch's binary packages; the
/// branch name is appended to it.
pub const API_ALT_URL: &'static str = "https://rdb.altlinux.org/api/export/branch_binary_packages/";

/// A CPU architecture for which a branch ships packages.
pub struct Arch(String);

impl View for Arch {
    type V = Seq<char>;

    closed spec fn view(&self) -> Seq<char> {
        self.0@
    }
}

impl Arch {
    /// Builds an architecture from its name.
    pub fn new(name: String) -> (arch: Arch)
        ensures
            arch@ == name@,
    {
        Arch(name)
    }

    pub fn inner_ref(&self) -> (name: &str)
        ensures
            name@ == self@,
    {
        self.0.as_str()
    }
}

/// `names` with every name after its first occurrence removed, appended to `seen`
/// (names already in `seen` are not appended again).
pub open spec fn dedup_onto(seen: Seq<Seq<char>>, names: Seq<Seq<char>>) -> Seq<Seq<char>>
    decreases names.len(),
{
    if names.len() == 0 {
        seen
    } else {
        let kept = dedup_onto(seen, names.drop_last());
        if kept.contains(names.last()) {
            kept
        } else {
            kept.push(names.last())
        }
    }
}

/// The distinct names of `names`, each at its first occurrence.
pub open spec fn dedup(names: Seq<Seq<char>>) -> Seq<Seq<char>> {
    dedup_onto(Seq::empty(), names)
}

/// The views of a sequence of string slices.
pub open spec fn str_views(names: Seq<&str>) -> Seq<Seq<char>> {
    names.map_values(|s: &str| s@)
}

/// The views of a sequence of architectures.
pub open spec fn arch_views(archs: Seq<Arch>) -> Seq<Seq<char>> {
    archs.map_values(|a: Arch| a@)
}

/// Whether some architecture of `archs` is named `name`.
fn contains_arch(archs: &Vec<Arch>, name: &String) -> (found: bool)
    ensures
        found == arch_views(archs@).contains(name@),
{
    let mut k: usize = 0;
    while k < archs.len()
        invariant
            k <= archs.len(),
            forall|m: int| 0 <= m < k ==> (#[trigger] archs@[m])@ != name@,
        decreases archs.len() - k,
    {
        if archs[k].0 == *name {
            assert(arch_views(archs@)[k as int] == name@);
            return true;
        }
        k = k + 1;
    }
    assert forall|m: int| 0 <= m < arch_views(archs@).len() implies arch_views(archs@)[m] != name@ by {
        assert(archs@[m]@ != name@);
    }
    false
}

/// Appends to `archs` the architectures of `packages` that it does not hold yet.
fn add_new_architectures(archs: &mut Vec<Arch>, packages: &[Package])
    ensures
        arch_views(final(archs)@) == dedup_onto(arch_views(old(archs)@), package_archs(packages@)),
{
    let ghost start = arch_views(archs@);
    let ghost all = package_archs(packages@);
    let mut j: usize = 0;
    while j < packages.len()
        invariant
            j <= packages.len(),
            all == package_archs(packages@),
            arch_views(archs@) == dedup_onto(start, all.take(j as int)),
        decreases packages.len() - j,
    {
        assert(all.take(j + 1).drop_last() =~= all.take(j as int));
        assert(all.take(j + 1).last() == packages@[j as int]@.arch);
        let name = packages[j].arch_ref().to_owned();
        if !contains_arch(archs, &name) {
            let ghost before = archs@;
            archs.push(Arch(name));
            assert(arch_views(archs@) =~= arch_views(before).push(name@));
        }
        j = j + 1;
    }
    assert(all.take(packages.len() as int) =~= all);
}

/// The architectures for which either of two branches ships packages, given the
/// packages of each branch: every architecture once, first those of `packages_a` in
/// order of first appearance, then the others of `packages_b`.
pub fn fetch_supported_architectures(packages_a: &[Package], packages_b: &[Package]) -> (archs: Vec<Arch>)
    ensures
        arch_views(archs@) == dedup_onto(dedup(package_archs(packages_a@)), package_archs(packages_b@)),
        forall|k: int|
            0 <= k < archs.len() ==> (exists|i: int| 0 <= i < packages_a.len() && (#[trigger] packages_a@[i])@.arch
                == (#[trigger] archs@[k])@) || (exists|j: int|
                0 <= j < packages_b.len() && (#[trigger] packages_b@[j])@.arch == archs@[k]@),
        forall|i: int|
            0 <= i < packages_a.len() ==> exists|k: int| 0 <= k < archs.len() && (#[trigger] archs@[k])@
                == (#[trigger] packages_a@[i])@.arch,
        forall|j: int|
            0 <= j < packages_b.len() ==> exists|k: int| 0 <= k < archs.len() && (#[trigger] archs@[k])@
                == (#[trigger] packages_b@[j])@.arch,
        forall|k1: int, k2: int|
            0 <= k1 < archs.len() && 0 <= k2 < archs.len() && k1 != k2 ==> (#[trigger] archs@[k1])@
                != (#[trigger] archs@[k2])@,
{
    let mut archs: Vec<Arch> = Vec::new();
    assert(arch_views(archs@) =~= Seq::<Seq<char>>::empty());
    add_new_architectures(&mut archs, packages_a);
    add_new_architectures(&mut archs, packages_b);
    proof {
        lemma_supported_architectures_exact(packages_a@, packages_b@);
        let r = arch_views(archs@);
        assert forall|k: int| 0 <= k < archs.len() implies (exists|i: int|
            0 <= i < packages_a.len() && (#[trigger] packages_a@[i])@.arch == (#[trigger] archs@[k])@) || (exists|j: int|
            0 <= j < packages_b.len() && (#[trigger] packages_b@[j])@.arch == archs@[k]@) by {
            assert(r[k] == archs@[k]@);
            assert(r.contains(r[k]));
        }
        assert forall|i: int| 0 <= i < packages_a.len() implies exists|k: int| 0 <= k < archs.len() && (
        #[trigger] archs@[k])@ == (#[trigger] packages_a@[i])@.arch by {
            assert(r.contains(packages_a@[i]@.arch));
            let k = choose|k: int| 0 <= k < r.len() && r[k] == packages_a@[i]@.arch;
            assert(archs@[k]@ == r[k]);
        }
        assert forall|j: int| 0 <= j < packages_b.len() implies exists|k: int| 0 <= k < archs.len() && (
        #[trigger] archs@[k])@ == (#[trigger] packages_b@[j])@.arch by {
            assert(r.contains(packages_b@[j]@.arch));
            let k = choose|k: int| 0 <= k < r.len() && r[k] == packages_b@[j]@.arch;
            assert(archs@[k]@ == r[k]);
        }
        assert forall|k1: int, k2: int|
            0 <= k1 < archs.len() && 0 <= k2 < archs.len() && k1 != k2 implies (#[trigger] archs@[k1])@
                != (#[trigger] archs@[k2])@ by {
            assert(r[k1] == archs@[k1]@ && r[k2] == archs@[k2]@);
        }
    }
    archs
}

/// The distinct architectures of `packages`, each once, in order of first appearance.
pub fn extract_architectures_from_packages(packages: &[Package]) -> (archs: Vec<&str>)
    ensures
        str_views(archs@) == dedup(package_archs(packages@)),
        forall|k: int|
            0 <= k < archs.len() ==> exists|i: int| 0 <= i < packages.len() && (#[trigger] packages@[i])@.arch
                == (#[trigger] archs@[k])@,
        forall|i: int|
            0 <= i < packages.len() ==> exists|k: int| 0 <= k < archs.len() && (#[trigger] archs@[k])@
                == (#[trigger] packages@[i])@.arch,
        forall|k1: int, k2: int|
            0 <= k1 < archs.len() && 0 <= k2 < archs.len() && k1 != k2 ==> (#[trigger] archs@[k1])@
                != (#[trigger] archs@[k2])@,
{
    let ghost all = package_archs(packages@);
    let mut archs: Vec<&str> = Vec::new();
    // `owners[k]` is the index of a package whose architecture is `archs[k]`.
    let mut owners: Vec<usize> = Vec::new();
    let mut j: usize = 0;
    assert(str_views(archs@) =~= dedup(all.take(0)));
    while j < packages.len()
        invariant
            j <= packages.len(),
            all == package_archs(packages@),
            str_views(archs@) == dedup(all.take(j as int)),
            owners.len() == archs.len(),
            forall|k: int|
                0 <= k < owners.len() ==> #[trigger] owners@[k] < packages.len() && packages@[owners@[k] as int]@.arch
                    == archs@[k]@,
        decreases packages.len() - j,
    {
        assert(all.take(j + 1).drop_last() =~= all.take(j as int));
        assert(all.take(j + 1).last() == packages@[j as int]@.arch);
        let mut seen = false;
        let mut k: usize = 0;
        while k < owners.len()
            invariant
                k <= owners.len(),
                j < packages.len(),
                owners.len() == archs.len(),
                forall|m: int|
                    0 <= m < owners.len() ==> #[trigger] owners@[m] < packages.len() && packages@[owners@[m] as int]@.arch
                        == archs@[m]@,
                seen == exists|m: int| 0 <= m < k && (#[trigger] archs@[m])@ == packages@[j as int]@.arch,
            decreases owners.len() - k,
        {
            if packages[owners[k]].same_arch(&packages[j]) {
                seen = true;
            }
            k = k + 1;
        }
        proof {
            if seen {
                let m = choose|m: int| 0 <= m < owners.len() && (#[trigger] archs@[m])@ == packages@[j as int]@.arch;
                assert(str_views(archs@)[m] == packages@[j as int]@.arch);
            } else {
                assert forall|m: int| 0 <= m < str_views(archs@).len()
                    implies str_views(archs@)[m] != packages@[j as int]@.arch by {
                    assert(archs@[m]@ != packages@[j as int]@.arch);
                }
            }
        }
        if !seen {
            let ghost before = archs@;
            archs.push(packages[j].arch_ref());
            owners.push(j);
            assert(str_views(archs@) =~= str_views(before).push(packages@[j as int]@.arch));
        }
        j = j + 1;
    }
    assert(all.take(packages.len() as int) =~= all);
    proof {
        lemma_extracted_architectures_exact(packages@);
        let r = str_views(archs@);
        assert forall|k: int| 0 <= k < archs.len() implies exists|i: int| 0 <= i < packages.len() && (
        #[trigger] packages@[i])@.arch == (#[trigger] archs@[k])@ by {
            assert(r[k] == archs@[k]@);
            assert(r.contains(r[k]));
        }
        assert forall|i: int| 0 <= i < packages.len() implies exists|k: int| 0 <= k < archs.len() && (
        #[trigger] archs@[k])@ == (#[trigger] packages@[i])@.arch by {
            assert(r.contains(packages@[i]@.arch));
            let k = choose|k: int| 0 <= k < r.len() && r[k] == packages@[i]@.arch;
            assert(archs@[k]@ == r[k]);
        }
        assert forall|k1: int, k2: int|
            0 <= k1 < archs.len() && 0 <= k2 < archs.len() && k1 != k2 implies (#[trigger] archs@[k1])@
                != (#[trigger] archs@[k2])@ by {
            assert(r[k1] == archs@[k1]@ && r[k2] == archs@[k2]@);
        }
    }
    archs
}

/// Whether an HTTP status code reports success (the range 200 to 299).
pub open spec fn is_success_status(status: u16) -> bool {
    200 <= status && status <= 299
}

/// Whether the database serves the packages of a branch for an architecture, judged
/// from the status code of its answer to the request for them.
pub fn is_architecture_supported_for_brunch(status: u16) -> (supported: bool)
    ensures
        supported == is_success_status(status),
{
    200 <= status && status <= 299
}

/// The address from which the binary packages of `branch` are fetched.
pub fn packages_request_url(branch: Branch) -> (url: String)
    ensures
        url@ == API_ALT_URL@ + branch.name_view(),
{
    let mut url = API_ALT_URL.to_owned();
    url.append(branch.as_str());
    url
}

/// Removing repeats keeps exactly the names of `seen` and of `names`, and adds no
/// repeat to a `seen` that has none.
pub proof fn lemma_dedup_onto(seen: Seq<Seq<char>>, names: Seq<Seq<char>>)
    ensures
        forall|x: Seq<char>| #[trigger] dedup_onto(seen, names).contains(x) <==> (seen.contains(x) || names.contains(x)),
        seen.no_duplicates() ==> dedup_onto(seen, names).no_duplicates(),
    decreases names.len(),
{
    if names.len() > 0 {
        let rest = names.drop_last();
        lemma_dedup_onto(seen, rest);
        let kept = dedup_onto(seen, rest);
        assert forall|x: Seq<char>| #[trigger] dedup_onto(seen, names).contains(x) <==> (seen.contains(x)
            || names.contains(x)) by {
            if names.contains(x) && !rest.contains(x) {
                let i = choose|i: int| 0 <= i < names.len() && names[i] == x;
                if i < names.len() - 1 {
                    assert(rest[i] == x);
                }
            }
            if rest.contains(x) {
                let i = choose|i: int| 0 <= i < rest.len() && rest[i] == x;
                assert(names[i] == x);
            }
            if !kept.contains(names.last()) {
                assert(kept.push(names.last())[kept.len() as int] == names.last());
                if kept.push(names.last()).contains(x) && x != names.last() {
                    let i = choose|i: int| 0 <= i < kept.len() + 1 && kept.push(names.last())[i] == x;
                    assert(kept[i] == x);
                }
                if kept.contains(x) {
                    let i = choose|i: int| 0 <= i < kept.len() && kept[i] == x;
                    assert(kept.push(names.last())[i] == x);
                }
            }
        }
    }
}

/// The architectures extracted from packages are those of the packages, each once.
pub proof fn lemma_extracted_architectures(packages: Seq<Package>)
    ensures
        dedup(package_archs(packages)).no_duplicates(),
        forall|x: Seq<char>| #[trigger] dedup(package_archs(packages)).contains(x) <==> package_archs(packages).contains(x),
{
    lemma_dedup_onto(Seq::empty(), package_archs(packages));
}

/// Every supported architecture is that of some package of one of the two branches,
/// every architecture of their packages is supported, and none is listed twice.
pub proof fn lemma_supported_architectures(packages_a: Seq<Package>, packages_b: Seq<Package>)
    ensures
        dedup_onto(dedup(package_archs(packages_a)), package_archs(packages_b)).no_duplicates(),
        forall|x: Seq<char>|
            #[trigger] dedup_onto(dedup(package_archs(packages_a)), package_archs(packages_b)).contains(x) <==> (
            package_archs(packages_a).contains(x) || package_archs(packages_b).contains(x)),
{
    lemma_extracted_architectures(packages_a);
    lemma_dedup_onto(dedup(package_archs(packages_a)), package_archs(packages_b));
}

/// Whether some package of `packages` is built for exactly the architecture `arch`.
proof fn lemma_package_archs_contains(packages: Seq<Package>, arch: Seq<char>)
    ensures
        package_archs(packages).contains(arch) <==> exists|i: int|
            0 <= i < packages.len() && (#[trigger] packages[i])@.arch == arch,
{
    let all = package_archs(packages);
    if all.contains(arch) {
        let i = choose|i: int| 0 <= i < all.len() && all[i] == arch;
        assert(packages[i]@.arch == arch);
    }
    if exists|i: int| 0 <= i < packages.len() && (#[trigger] packages[i])@.arch == arch {
        let i = choose|i: int| 0 <= i < packages.len() && (#[trigger] packages[i])@.arch == arch;
        assert(all[i] == arch);
    }
}

/// The architectures extracted from packages are exactly the architecture strings of the
/// packages, as they are, each listed once.
pub proof fn lemma_extracted_architectures_exact(packages: Seq<Package>)
    ensures
        dedup(package_archs(packages)).no_duplicates(),
        forall|x: Seq<char>|
            #[trigger] dedup(package_archs(packages)).contains(x) <==> exists|i: int|
                0 <= i < packages.len() && (#[trigger] packages[i])@.arch == x,
{
    lemma_extracted_architectures(packages);
    assert forall|x: Seq<char>| #[trigger] dedup(package_archs(packages)).contains(x) <==> exists|i: int|
        0 <= i < packages.len() && (#[trigger] packages[i])@.arch == x by {
        lemma_package_archs_contains(packages, x);
    }
}

/// The supported architectures are exactly the architecture strings, as they are, of
/// the packages of the two branches, each listed once.
pub proof fn lemma_supported_architectures_exact(packages_a: Seq<Package>, packages_b: Seq<Package>)
    ensures
        dedup_onto(dedup(package_archs(packages_a)), package_archs(packages_b)).no_duplicates(),
        forall|x: Seq<char>|
            #[trigger] dedup_onto(dedup(package_archs(packages_a)), package_archs(packages_b)).contains(x) <==> (
            (exists|i: int| 0 <= i < packages_a.len() && (#[trigger] packages_a[i])@.arch == x) || (exists|j: int|
                0 <= j < packages_b.len() && (#[trigger] packages_b[j])@.arch == x)),
{
    lemma_supported_architectures(packages_a, packages_b);
    assert forall|x: Seq<char>|
        #[trigger] dedup_onto(dedup(package_archs(packages_a)), package_archs(packages_b)).contains(x) <==> (
        (exists|i: int| 0 <= i < packages_a.len() && (#[trigger] packages_a[i])@.arch == x) || (exists|j: int|
            0 <= j < packages_b.len() && (#[trigger] packages_b[j])@.arch == x)) by {
        lemma_package_archs_contains(packages_a, x);
        lemma_package_archs_contains(packages_b, x);
    }
}

} // verus!
