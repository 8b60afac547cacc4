use vstd::prelude::*;
use crate::api_alt_json_templates::{Package, has_package_named};
use crate::FetchError;

verus! {

/// The packages of `packages_a`, in their order, whose name no package of `packages_b` carries.
pub open spec fn only_a_spec(packages_a: Seq<Package>, packages_b: Seq<Package>) -> Seq<Package> {
    packages_a.filter(name_missing_from(packages_b))
}

/// Holds of a package whose name no package of `packages` carries.
pub open spec fn name_missing_from(packages: Seq<Package>) -> spec_fn(Package) -> bool {
    |p: Package| !has_package_named(packages, p@.name)
}

/// Whether some package of `packages` has the name of `package`.
fn contains_name(packages: &Vec<Package>, package: &Package) -> (found: bool)
    ensures
        found == has_package_named(packages@, package@.name),
{
    let mut j: usize = 0;
    while j < packages.len()
        invariant
            j <= packages.len(),
            forall|k: int| 0 <= k < j ==> (#[trigger] packages@[k])@.name != package@.name,
        decreases packages.len() - j,
    {
        if packages[j].same_name(package) {
            return true;
        }
        j = j + 1;
    }
    false
}

/// Keeps the packages of `packages_a` whose name does not occur in `packages_b`.
pub fn only_a_packages(packages_a: Vec<Package>, packages_b: Vec<Package>) -> (only_a: Vec<Package>)
    ensures
        only_a@ == only_a_spec(packages_a@, packages_b@),
        forall|i: int|
            0 <= i < packages_a.len() ==> (only_a@.contains(#[trigger] packages_a@[i]) <==> forall|j: int|
                0 <= j < packages_b.len() ==> (#[trigger] packages_b@[j])@.name != packages_a@[i]@.name),
        forall|k: int|
            0 <= k < only_a.len() ==> packages_a@.contains(#[trigger] only_a@[k]) && forall|j: int|
                0 <= j < packages_b.len() ==> (#[trigger] packages_b@[j])@.name != only_a@[k]@.name,
{
    let ghost a = packages_a@;
    let mut only_a: Vec<Package> = Vec::new();
    for package in it: packages_a.into_iter()
        invariant
            it.seq() == a,
            only_a@ == only_a_spec(a.take(it.index() as int), packages_b@),
    {
        let ghost i = it.index();
        assert(a.take(i + 1).drop_last() =~= a.take(i as int));
        reveal_with_fuel(Seq::<_>::filter, 1);
        if !contains_name(&packages_b, &package) {
            only_a.push(package);
        }
    }
    assert(a.take(a.len() as int) =~= a);
    proof {
        lemma_only_a_exact(a, packages_b@);
    }
    only_a
}

/// A package of branch A is among those only A has exactly when no package of branch B
/// carries exactly its name; everything reported comes from A and has such a name.
pub proof fn lemma_only_a_exact(packages_a: Seq<Package>, packages_b: Seq<Package>)
    ensures
        forall|i: int|
            0 <= i < packages_a.len() ==> (only_a_spec(packages_a, packages_b).contains(#[trigger] packages_a[i])
                <==> forall|j: int| 0 <= j < packages_b.len() ==> (#[trigger] packages_b[j])@.name != packages_a[i]@.name),
        forall|k: int|
            0 <= k < only_a_spec(packages_a, packages_b).len() ==> packages_a.contains(
                #[trigger] only_a_spec(packages_a, packages_b)[k],
            ) && forall|j: int|
                0 <= j < packages_b.len() ==> (#[trigger] packages_b[j])@.name != only_a_spec(packages_a, packages_b)[k]@.name,
{
    let only = only_a_spec(packages_a, packages_b);
    assert forall|i: int| 0 <= i < packages_a.len() implies (only.contains(#[trigger] packages_a[i]) <==> forall|j: int|
        0 <= j < packages_b.len() ==> (#[trigger] packages_b[j])@.name != packages_a[i]@.name) by {
        lemma_only_a_membership(packages_a, packages_b, packages_a[i]);
        assert(packages_a.contains(packages_a[i]));
    }
    assert forall|k: int| 0 <= k < only.len() implies packages_a.contains(#[trigger] only[k]) && forall|j: int|
        0 <= j < packages_b.len() ==> (#[trigger] packages_b[j])@.name != only[k]@.name by {
        assert(only.contains(only[k]));
        lemma_only_a_membership(packages_a, packages_b, only[k]);
    }
}

/// The packages of branch A that branch B lacks, given the packages of A and the outcome
/// of fetching those of B. When B's packages could not be had, A's are returned whole.
pub fn fetch_only_packages_from_a_branch(
    primary_packages: Vec<Package>,
    secondary_packages: Result<Vec<Package>, FetchError>,
) -> (only_a: Vec<Package>)
    ensures
        secondary_packages matches Ok(b) ==> only_a@ == only_a_spec(primary_packages@, b@),
        secondary_packages is Err ==> only_a@ == primary_packages@,
        secondary_packages matches Ok(b) ==> forall|i: int|
            0 <= i < primary_packages.len() ==> (only_a@.contains(#[trigger] primary_packages@[i]) <==> forall|j: int|
                0 <= j < b.len() ==> (#[trigger] b@[j])@.name != primary_packages@[i]@.name),
{
    match secondary_packages {
        Ok(packages) => only_a_packages(primary_packages, packages),
        Err(error) => crate::handle_fetch_error(error, primary_packages),
    }
}

/// Filtering keeps a sequence whole when every element passes.
pub proof fn lemma_filter_keeps_all<A>(s: Seq<A>, pred: spec_fn(A) -> bool)
    requires
        forall|i: int| 0 <= i < s.len() ==> pred(#[trigger] s[i]),
    ensures
        s.filter(pred) == s,
    decreases s.len(),
{
    reveal(Seq::filter);
    if s.len() > 0 {
        lemma_filter_keeps_all(s.drop_last(), pred);
        assert(s.drop_last().push(s.last()) =~= s);
    }
}

/// A package is among the packages only branch A has exactly when it is a package of A
/// and no package of B has its name.
pub proof fn lemma_only_a_membership(packages_a: Seq<Package>, packages_b: Seq<Package>, package: Package)
    ensures
        only_a_spec(packages_a, packages_b).contains(package) <==> (packages_a.contains(package)
            && !has_package_named(packages_b, package@.name)),
{
    let pred = name_missing_from(packages_b);
    let only = only_a_spec(packages_a, packages_b);
    if only.contains(package) {
        packages_a.lemma_filter_contains_rev(pred, package);
        let i = choose|i: int| 0 <= i < only.len() && only[i] == package;
        packages_a.lemma_filter_pred(pred, i);
    }
    if packages_a.contains(package) && !has_package_named(packages_b, package@.name) {
        let i = choose|i: int| 0 <= i < packages_a.len() && packages_a[i] == package;
        packages_a.lemma_filter_contains(pred, i);
    }
}

/// No package that only branch A has shares its name with a package of branch B.
pub proof fn lemma_only_a_names_absent_from_b(packages_a: Seq<Package>, packages_b: Seq<Package>)
    ensures
        forall|i: int|
            0 <= i < only_a_spec(packages_a, packages_b).len() ==> !has_package_named(
                packages_b,
                (#[trigger] only_a_spec(packages_a, packages_b)[i])@.name,
            ),
{
    let pred = name_missing_from(packages_b);
    assert forall|i: int| 0 <= i < only_a_spec(packages_a, packages_b).len() implies !has_package_named(
        packages_b,
        (#[trigger] only_a_spec(packages_a, packages_b)[i])@.name,
    ) by {
        packages_a.lemma_filter_pred(pred, i);
    }
}

/// Against a branch with no packages, every package of branch A is one only A has.
pub proof fn lemma_only_a_against_empty(packages_a: Seq<Package>)
    ensures
        only_a_spec(packages_a, Seq::empty()) == packages_a,
{
    lemma_filter_keeps_all(packages_a, name_missing_from(Seq::empty()));
}

/// A branch compared with itself has no packages of its own.
pub proof fn lemma_only_a_against_itself(packages_a: Seq<Package>)
    ensures
        only_a_spec(packages_a, packages_a) == Seq::<Package>::empty(),
{
    let pred = name_missing_from(packages_a);
    assert forall|i: int| 0 <= i < packages_a.len() implies !pred(#[trigger] packages_a[i]) by {
        assert(has_package_named(packages_a, packages_a[i]@.name));
    }
    packages_a.lemma_all_neg_filter_empty(pred);
    assert(only_a_spec(packages_a, packages_a) =~= Seq::<Package>::empty());
}

/// Filtering by one condition and then by another is filtering by both.
pub proof fn lemma_filter_filter<A>(s: Seq<A>, first: spec_fn(A) -> bool, second: spec_fn(A) -> bool)
    ensures
        s.filter(first).filter(second) == s.filter(|x: A| first(x) && second(x)),
    decreases s.len(),
{
    reveal(Seq::filter);
    if s.len() > 0 {
        lemma_filter_filter(s.drop_last(), first, second);
        let rest = s.drop_last().filter(first);
        if first(s.last()) {
            assert(rest.push(s.last()).drop_last() =~= rest);
        }
    }
}

/// A name occurs in the packages of B followed by those of C exactly when it occurs in
/// either.
pub proof fn lemma_has_package_named_concat(packages_b: Seq<Package>, packages_c: Seq<Package>, name: Seq<char>)
    ensures
        has_package_named(packages_b + packages_c, name) <==> (has_package_named(packages_b, name)
            || has_package_named(packages_c, name)),
{
    let bc = packages_b + packages_c;
    if has_package_named(bc, name) {
        let j = choose|j: int| 0 <= j < bc.len() && (#[trigger] bc[j])@.name == name;
        if j < packages_b.len() {
            assert(packages_b[j] == bc[j]);
        } else {
            assert(packages_c[j - packages_b.len()] == bc[j]);
        }
    }
    if has_package_named(packages_b, name) {
        let j = choose|j: int| 0 <= j < packages_b.len() && (#[trigger] packages_b[j])@.name == name;
        assert(bc[j] == packages_b[j]);
    }
    if has_package_named(packages_c, name) {
        let j = choose|j: int| 0 <= j < packages_c.len() && (#[trigger] packages_c[j])@.name == name;
        assert(bc[j + packages_b.len()] == packages_c[j]);
    }
}

/// More packages in branch B can only take packages away from those only branch A has:
/// comparing against B followed by C gives what comparing against B gives, further
/// compared against C (so a subsequence of it).
pub proof fn lemma_only_a_against_larger_b(packages_a: Seq<Package>, packages_b: Seq<Package>, packages_c: Seq<Package>)
    ensures
        only_a_spec(packages_a, packages_b + packages_c) == only_a_spec(only_a_spec(packages_a, packages_b), packages_c),
        forall|p: Package| #[trigger] only_a_spec(packages_a, packages_b + packages_c).contains(p) ==> only_a_spec(
            packages_a,
            packages_b,
        ).contains(p),
{
    let first = name_missing_from(packages_b);
    let second = name_missing_from(packages_c);
    lemma_filter_filter(packages_a, first, second);
    assert forall|p: Package| #[trigger] name_missing_from(packages_b + packages_c)(p) == (first(p) && second(p)) by {
        lemma_has_package_named_concat(packages_b, packages_c, p@.name);
    }
    assert(name_missing_from(packages_b + packages_c) =~= (|x: Package| first(x) && second(x)));
    assert forall|p: Package| #[trigger] only_a_spec(packages_a, packages_b + packages_c).contains(p) implies only_a_spec(
        packages_a,
        packages_b,
    ).contains(p) by {
        only_a_spec(packages_a, packages_b).lemma_filter_contains_rev(second, p);
    }
}

/// Taking the packages only branch A has a second time, against the same branch B,
/// changes nothing.
pub proof fn lemma_only_a_idempotent(packages_a: Seq<Package>, packages_b: Seq<Package>)
    ensures
        only_a_spec(only_a_spec(packages_a, packages_b), packages_b) == only_a_spec(packages_a, packages_b),
{
    let pred = name_missing_from(packages_b);
    let only = only_a_spec(packages_a, packages_b);
    assert forall|i: int| 0 <= i < only.len() implies pred(#[trigger] only[i]) by {
        packages_a.lemma_filter_pred(pred, i);
    }
    lemma_filter_keeps_all(only, pred);
}

} // verus!
