use vstd::prelude::*;
use std::cmp::Ordering;
use crate::api_alt_json_templates::{Package, PackageView, has_package_named, names_distinct};
use crate::cases::fetch_only_packages_from_a_branch::{only_a_spec, lemma_only_a_membership};
use crate::decimal::{i32_to_decimal, int_decimal, epoch_decimal, lemma_epoch_decimal_nonempty};

verus! {

/// The text that `rpm_version::Nevra` displays for the given name, epoch, version,
/// release and architecture: `name-[epoch:]version-release.arch`, the epoch and its
/// colon left out when the epoch is empty.
pub open spec fn nevra_text(
    name: Seq<char>,
    epoch: Seq<char>,
    version: Seq<char>,
    release: Seq<char>,
    arch: Seq<char>,
) -> Seq<char> {
    name + seq!['-'] + (if epoch.len() == 0 { Seq::empty() } else { epoch + seq![':'] }) + version
        + seq!['-'] + release + seq!['.'] + arch
}

/// Names the result of `rpm_version::rpm_evr_compare` on two version strings.
pub uninterp spec fn rpm_evr_order(evr1: Seq<char>, evr2: Seq<char>) -> Ordering;

/// Builds an `rpm_version::Nevra` from its five parts and returns its `Display` text.
/// The contract claims the text that `Nevra`'s and `Evr`'s `Display` impls write:
/// `name-`, then `epoch:` when the epoch is not empty, then `version-release.arch`.
#[verifier::external_body]
fn nevra_to_string(name: &str, epoch: &str, version: &str, release: &str, arch: &str) -> (text: String)
    ensures
        text@ == nevra_text(name@, epoch@, version@, release@, arch@),
{
    rpm_version::Nevra::new(name, epoch, version, release, arch).to_string()
}

/// The ordering with its two sides exchanged.
pub open spec fn reversed_order(order: Ordering) -> Ordering {
    match order {
        Ordering::Less => Ordering::Greater,
        Ordering::Equal => Ordering::Equal,
        Ordering::Greater => Ordering::Less,
    }
}

/// Calls `rpm_version::rpm_evr_compare`, which parses both strings as RPM
/// epoch:version-release values and orders them with `Evr`'s `Ord` impl. The contract
/// claims that the result is the named result `rpm_evr_order` of the two strings, and
/// the laws of `Ord` that this impl keeps (a lexicographic comparison of epoch, version
/// and release, each by `compare_version_string`): exchanging the strings reverses the
/// result, a string is equal to itself, and "not less" and "greater" chain through a
/// third string. What the order is on given strings is left unsaid.
#[verifier::external_body]
fn rpm_evr_compare(evr1: &str, evr2: &str) -> (order: Ordering)
    ensures
        order == rpm_evr_order(evr1@, evr2@),
        rpm_evr_order(evr2@, evr1@) == reversed_order(order),
        evr1@ == evr2@ ==> order == Ordering::Equal,
        forall|s: Seq<char>|
            order != Ordering::Less && #[trigger] rpm_evr_order(evr2@, s) != Ordering::Less ==> rpm_evr_order(
                evr1@,
                s,
            ) != Ordering::Less,
        forall|s: Seq<char>|
            (order == Ordering::Greater && #[trigger] rpm_evr_order(evr2@, s) != Ordering::Less) || (order
                != Ordering::Less && rpm_evr_order(evr2@, s) == Ordering::Greater) ==> rpm_evr_order(evr1@, s)
                == Ordering::Greater,
{
    rpm_version::rpm_evr_compare(evr1, evr2)
}

/// The version string under which a package's epoch, version and release are compared:
/// the text of a NEVRA with empty name and architecture.
pub open spec fn evr_text(package: PackageView) -> Seq<char> {
    nevra_text(Seq::empty(), int_decimal(package.epoch as int), package.version, package.release, Seq::empty())
}

/// How the version of package `a` compares with that of package `b`.
pub open spec fn version_order(a: PackageView, b: PackageView) -> Ordering {
    rpm_evr_order(evr_text(a), evr_text(b))
}

/// The version string of a package, as given to the RPM comparison.
fn evr_string(package: &Package) -> (text: String)
    ensures
        text@ == evr_text(package@),
{
    let epoch = i32_to_decimal(*package.epoch_ref());
    proof {
        reveal_strlit("");
    }
    nevra_to_string("", epoch.as_str(), package.version_ref(), package.release_ref(), "")
}

/// Compares the epoch-version-release of two packages by RPM's rules.
/// Exchanging the packages reverses the result; packages with the same epoch, version
/// and release compare equal; and "not older" and "newer" chain through any third package.
pub fn package_version_ordering(package_a: &Package, package_b: &Package) -> (order: Ordering)
    ensures
        order == version_order(package_a@, package_b@),
        order == rpm_evr_order(
            seq!['-'] + epoch_decimal(package_a@.epoch) + seq![':'] + package_a@.version + seq!['-']
                + package_a@.release + seq!['.'],
            seq!['-'] + epoch_decimal(package_b@.epoch) + seq![':'] + package_b@.version + seq!['-']
                + package_b@.release + seq!['.'],
        ),
        version_order(package_b@, package_a@) == reversed_order(order),
        package_a@.epoch == package_b@.epoch && package_a@.version == package_b@.version && package_a@.release
            == package_b@.release ==> order == Ordering::Equal,
        evr_text(package_a@) == evr_text(package_b@) ==> order == Ordering::Equal,
        forall|c: PackageView|
            order != Ordering::Less && #[trigger] version_order(package_b@, c) != Ordering::Less ==> version_order(
                package_a@,
                c,
            ) != Ordering::Less,
        forall|c: PackageView|
            (order == Ordering::Greater && #[trigger] version_order(package_b@, c) != Ordering::Less) || (order
                != Ordering::Less && version_order(package_b@, c) == Ordering::Greater) ==> version_order(
                package_a@,
                c,
            ) == Ordering::Greater,
{
    let evr_a = evr_string(package_a);
    let evr_b = evr_string(package_b);
    proof {
        lemma_version_order_text(package_a@, package_b@);
    }
    rpm_evr_compare(evr_a.as_str(), evr_b.as_str())
}

/// Packages are compared by RPM's order on the texts `-epoch:version-release.`, with the
/// epoch written in decimal and the version and release exactly as the packages carry them.
pub proof fn lemma_version_order_text(a: PackageView, b: PackageView)
    ensures
        version_order(a, b) == rpm_evr_order(
            seq!['-'] + epoch_decimal(a.epoch) + seq![':'] + a.version + seq!['-'] + a.release + seq!['.'],
            seq!['-'] + epoch_decimal(b.epoch) + seq![':'] + b.version + seq!['-'] + b.release + seq!['.'],
        ),
{
    lemma_epoch_decimal_nonempty(a.epoch);
    lemma_epoch_decimal_nonempty(b.epoch);
    assert(evr_text(a) =~= seq!['-'] + epoch_decimal(a.epoch) + seq![':'] + a.version + seq!['-'] + a.release
        + seq!['.']);
    assert(evr_text(b) =~= seq!['-'] + epoch_decimal(b.epoch) + seq![':'] + b.version + seq!['-'] + b.release
        + seq!['.']);
}

/// A package of branch A is reported newer exactly when branch B holds a package with
/// exactly its name whose version it is greater than; everything reported comes from A.
pub proof fn lemma_vr_more_exact(packages_a: Seq<Package>, packages_b: Seq<Package>)
    ensures
        forall|i: int|
            0 <= i < packages_a.len() ==> (vr_more_spec(packages_a, packages_b).contains(#[trigger] packages_a[i])
                <==> exists|j: int|
                0 <= j < packages_b.len() && (#[trigger] packages_b[j])@.name == packages_a[i]@.name && version_order(
                    packages_a[i]@,
                    packages_b[j]@,
                ) == Ordering::Greater),
        forall|k: int|
            0 <= k < vr_more_spec(packages_a, packages_b).len() ==> packages_a.contains(
                #[trigger] vr_more_spec(packages_a, packages_b)[k],
            ) && exists|j: int|
                0 <= j < packages_b.len() && (#[trigger] packages_b[j])@.name == vr_more_spec(packages_a, packages_b)[k]@.name
                    && version_order(vr_more_spec(packages_a, packages_b)[k]@, packages_b[j]@) == Ordering::Greater,
{
    let newer = vr_more_spec(packages_a, packages_b);
    assert forall|i: int| 0 <= i < packages_a.len() implies (newer.contains(#[trigger] packages_a[i]) <==> exists|j: int|
        0 <= j < packages_b.len() && (#[trigger] packages_b[j])@.name == packages_a[i]@.name && version_order(
            packages_a[i]@,
            packages_b[j]@,
        ) == Ordering::Greater) by {
        lemma_vr_more_membership(packages_a, packages_b, packages_a[i]);
        assert(packages_a.contains(packages_a[i]));
    }
    assert forall|k: int| 0 <= k < newer.len() implies packages_a.contains(#[trigger] newer[k]) && exists|j: int|
        0 <= j < packages_b.len() && (#[trigger] packages_b[j])@.name == newer[k]@.name && version_order(
            newer[k]@,
            packages_b[j]@,
        ) == Ordering::Greater by {
        assert(newer.contains(newer[k]));
        lemma_vr_more_membership(packages_a, packages_b, newer[k]);
    }
}

/// Whether the version of `a` is greater than that of `b`.
pub open spec fn is_newer_version(a: PackageView, b: PackageView) -> bool {
    version_order(a, b) == Ordering::Greater
}

/// Whether the version of `a` is less than that of `b`.
pub open spec fn is_older_version(a: PackageView, b: PackageView) -> bool {
    version_order(a, b) == Ordering::Less
}

/// Whether `packages` holds a package with the name of `package` and a version that
/// `package`'s version is greater than.
pub open spec fn has_older_namesake(packages: Seq<Package>, package: PackageView) -> bool {
    exists|j: int|
        0 <= j < packages.len() && (#[trigger] packages[j])@.name == package.name
            && version_order(package, packages[j]@) == Ordering::Greater
}

/// Whether `packages` holds a package with the name of `package` that is older than
/// `package` seen from both sides, with a different version string.
pub open spec fn has_strictly_older_namesake(packages: Seq<Package>, package: PackageView) -> bool {
    exists|j: int|
        0 <= j < packages.len() && (#[trigger] packages[j])@.name == package.name
            && version_order(package, packages[j]@) == Ordering::Greater && version_order(packages[j]@, package)
            == Ordering::Less && evr_text(packages[j]@) != evr_text(package)
}

/// Whether a comparison result means "newer".
pub fn is_newer(order: Ordering) -> (newer: bool)
    ensures
        newer == (order == Ordering::Greater),
{
    match order {
        Ordering::Greater => true,
        _ => false,
    }
}

/// The packages of `packages_a`, in their order, that have a newer version than some
/// package of the same name in `packages_b`.
pub open spec fn vr_more_spec(packages_a: Seq<Package>, packages_b: Seq<Package>) -> Seq<Package> {
    packages_a.filter(newer_than_namesake_in(packages_b))
}

/// Holds of a package that is newer than some package of the same name in `packages`.
pub open spec fn newer_than_namesake_in(packages: Seq<Package>) -> spec_fn(Package) -> bool {
    |p: Package| has_older_namesake(packages, p@)
}

/// Whether some package of `packages` has the name of `package` and an older version.
fn has_older_namesake_in(packages: &Vec<Package>, package: &Package) -> (found: bool)
    ensures
        found == has_older_namesake(packages@, package@),
        found ==> has_strictly_older_namesake(packages@, package@),
{
    let mut j: usize = 0;
    while j < packages.len()
        invariant
            j <= packages.len(),
            forall|k: int|
                0 <= k < j ==> !((#[trigger] packages@[k])@.name == package@.name
                    && is_newer_version(package@, packages@[k]@)),
        decreases packages.len() - j,
    {
        if packages[j].same_name(package) {
            let order = package_version_ordering(package, &packages[j]);
            if is_newer(order) {
                return true;
            }
        }
        j = j + 1;
    }
    false
}

/// Keeps the packages of `packages_a` whose version-release is greater than that of a
/// package with the same name in `packages_b`. Every package kept is older, seen from the other side too, than its namesake in
/// `packages_b`; when `packages_b` names each package once, it is older than every
/// namesake there; and a branch compared with itself has no newer package.
pub fn fetch_vr_more_in_a_than_b_branch(packages_a: Vec<Package>, packages_b: Vec<Package>) -> (newer: Vec<Package>)
    ensures
        newer@ == vr_more_spec(packages_a@, packages_b@),
        forall|i: int| 0 <= i < newer.len() ==> has_strictly_older_namesake(packages_b@, #[trigger] newer@[i]@),
        names_distinct(packages_b@) ==> forall|i: int, j: int|
            0 <= i < newer.len() && 0 <= j < packages_b.len() && (#[trigger] packages_b@[j])@.name == (
            #[trigger] newer@[i])@.name ==> is_older_version(packages_b@[j]@, newer@[i]@),
        packages_a@ == packages_b@ && names_distinct(packages_b@) ==> newer@.len() == 0,
        forall|i: int|
            0 <= i < packages_a.len() ==> (newer@.contains(#[trigger] packages_a@[i]) <==> exists|j: int|
                0 <= j < packages_b.len() && (#[trigger] packages_b@[j])@.name == packages_a@[i]@.name
                    && is_newer_version(packages_a@[i]@, packages_b@[j]@)),
{
    let ghost a = packages_a@;
    let ghost b = packages_b@;
    let mut newer: Vec<Package> = Vec::new();
    for package in it: packages_a.into_iter()
        invariant
            it.seq() == a,
            b == packages_b@,
            newer@ == vr_more_spec(a.take(it.index() as int), packages_b@),
            forall|i: int| 0 <= i < newer.len() ==> has_strictly_older_namesake(packages_b@, #[trigger] newer@[i]@),
    {
        let ghost i = it.index();
        assert(a.take(i + 1).drop_last() =~= a.take(i as int));
        reveal_with_fuel(Seq::<_>::filter, 1);
        if has_older_namesake_in(&packages_b, &package) {
            newer.push(package);
        }
    }
    assert(a.take(a.len() as int) =~= a);
    proof {
        lemma_vr_more_properties(a, b, newer@);
        lemma_vr_more_kept_exactly(a, b);
    }
    newer
}

/// What the packages kept by `fetch_vr_more_in_a_than_b_branch` satisfy, given that each
/// is strictly newer than a namesake in `packages_b`.
proof fn lemma_vr_more_properties(packages_a: Seq<Package>, packages_b: Seq<Package>, newer: Seq<Package>)
    requires
        newer == vr_more_spec(packages_a, packages_b),
        forall|i: int| 0 <= i < newer.len() ==> has_strictly_older_namesake(packages_b, #[trigger] newer[i]@),
    ensures
        names_distinct(packages_b) ==> forall|i: int, j: int|
            0 <= i < newer.len() && 0 <= j < packages_b.len() && (#[trigger] packages_b[j])@.name == (
            #[trigger] newer[i])@.name ==> is_older_version(packages_b[j]@, newer[i]@),
        packages_a == packages_b && names_distinct(packages_b) ==> newer.len() == 0,
{
    let b = packages_b;
    if names_distinct(b) {
        assert forall|i: int, j: int|
            0 <= i < newer.len() && 0 <= j < b.len() && (#[trigger] b[j])@.name == (#[trigger] newer[i])@.name
            implies is_older_version(b[j]@, newer[i]@) by {
            assert(has_strictly_older_namesake(b, newer[i]@));
            let k = choose|k: int|
                0 <= k < b.len() && (#[trigger] b[k])@.name == newer[i]@.name && version_order(newer[i]@, b[k]@)
                    == Ordering::Greater && version_order(b[k]@, newer[i]@) == Ordering::Less && evr_text(b[k]@)
                    != evr_text(newer[i]@);
            if k != j {
                assert(b[j]@.name != b[k]@.name);
            }
        }
    }
    if packages_a == b && names_distinct(b) && newer.len() > 0 {
        let p = newer[0];
        lemma_vr_more_membership(packages_a, b, p);
        let idx = choose|idx: int| 0 <= idx < packages_a.len() && packages_a[idx] == p;
        assert(has_strictly_older_namesake(b, p@));
        let k = choose|k: int|
            0 <= k < b.len() && (#[trigger] b[k])@.name == p@.name && version_order(p@, b[k]@) == Ordering::Greater
                && version_order(b[k]@, p@) == Ordering::Less && evr_text(b[k]@) != evr_text(p@);
        if k != idx {
            assert(b[idx]@.name == p@.name);
            assert(b[k]@.name != b[idx]@.name);
        }
        assert(false);
    }
}

/// `lemma_vr_more_exact` over `is_newer_version`.
proof fn lemma_vr_more_kept_exactly(packages_a: Seq<Package>, packages_b: Seq<Package>)
    ensures
        forall|i: int|
            0 <= i < packages_a.len() ==> (vr_more_spec(packages_a, packages_b).contains(#[trigger] packages_a[i])
                <==> exists|j: int|
                0 <= j < packages_b.len() && (#[trigger] packages_b[j])@.name == packages_a[i]@.name
                    && is_newer_version(packages_a[i]@, packages_b[j]@)),
{
    lemma_vr_more_exact(packages_a, packages_b);
}

/// When each branch names each package once, no package name is reported newer in the
/// comparison of X against Y and also in that of Y against X, given the results of the
/// two comparisons as `fetch_vr_more_in_a_than_b_branch` guarantees them.
pub proof fn lemma_newer_both_ways_disjoint(
    packages_x: Seq<Package>,
    packages_y: Seq<Package>,
    newer_xy: Seq<Package>,
    newer_yx: Seq<Package>,
)
    requires
        names_distinct(packages_x),
        names_distinct(packages_y),
        newer_xy == vr_more_spec(packages_x, packages_y),
        newer_yx == vr_more_spec(packages_y, packages_x),
        forall|i: int| 0 <= i < newer_xy.len() ==> has_strictly_older_namesake(packages_y, #[trigger] newer_xy[i]@),
        forall|i: int| 0 <= i < newer_yx.len() ==> has_strictly_older_namesake(packages_x, #[trigger] newer_yx[i]@),
    ensures
        forall|i: int, k: int|
            0 <= i < newer_xy.len() && 0 <= k < newer_yx.len() ==> (#[trigger] newer_xy[i])@.name != (
            #[trigger] newer_yx[k])@.name,
{
    assert forall|i: int, k: int| 0 <= i < newer_xy.len() && 0 <= k < newer_yx.len() implies (
    #[trigger] newer_xy[i])@.name != (#[trigger] newer_yx[k])@.name by {
        if newer_xy[i]@.name == newer_yx[k]@.name {
            let p = newer_xy[i];
            let r = newer_yx[k];
            lemma_vr_more_membership(packages_x, packages_y, p);
            lemma_vr_more_membership(packages_y, packages_x, r);
            let ip = choose|ip: int| 0 <= ip < packages_x.len() && packages_x[ip] == p;
            let ir = choose|ir: int| 0 <= ir < packages_y.len() && packages_y[ir] == r;
            assert(has_strictly_older_namesake(packages_y, p@));
            let q = choose|q: int|
                0 <= q < packages_y.len() && (#[trigger] packages_y[q])@.name == p@.name && version_order(
                    p@,
                    packages_y[q]@,
                ) == Ordering::Greater && version_order(packages_y[q]@, p@) == Ordering::Less && evr_text(
                    packages_y[q]@,
                ) != evr_text(p@);
            assert(has_strictly_older_namesake(packages_x, r@));
            let s = choose|s: int|
                0 <= s < packages_x.len() && (#[trigger] packages_x[s])@.name == r@.name && version_order(
                    r@,
                    packages_x[s]@,
                ) == Ordering::Greater && version_order(packages_x[s]@, r@) == Ordering::Less && evr_text(
                    packages_x[s]@,
                ) != evr_text(r@);
            if q != ir {
                assert(packages_y[q]@.name != packages_y[ir]@.name);
            }
            if s != ip {
                assert(packages_x[s]@.name != packages_x[ip]@.name);
            }
            assert(false);
        }
    }
}

/// The order of two packages' versions depends on their epochs, versions and releases
/// alone, not on their names or architectures.
pub proof fn lemma_version_order_ignores_name_and_arch(a: PackageView, a2: PackageView, b: PackageView, b2: PackageView)
    requires
        a.epoch == a2.epoch && a.version == a2.version && a.release == a2.release,
        b.epoch == b2.epoch && b.version == b2.version && b.release == b2.release,
    ensures
        version_order(a, b) == version_order(a2, b2),
{
}

/// A package is among the newer ones exactly when it is a package of branch A and branch
/// B holds a package of the same name whose version is older.
pub proof fn lemma_vr_more_membership(packages_a: Seq<Package>, packages_b: Seq<Package>, package: Package)
    ensures
        vr_more_spec(packages_a, packages_b).contains(package) <==> (packages_a.contains(package)
            && has_older_namesake(packages_b, package@)),
{
    let pred = newer_than_namesake_in(packages_b);
    let newer = vr_more_spec(packages_a, packages_b);
    if newer.contains(package) {
        packages_a.lemma_filter_contains_rev(pred, package);
        let i = choose|i: int| 0 <= i < newer.len() && newer[i] == package;
        packages_a.lemma_filter_pred(pred, i);
    }
    if packages_a.contains(package) && has_older_namesake(packages_b, package@) {
        let i = choose|i: int| 0 <= i < packages_a.len() && packages_a[i] == package;
        packages_a.lemma_filter_contains(pred, i);
    }
}

/// Every package returned as newer has, in branch B, a package of the same name whose
/// version it is greater than.
pub proof fn lemma_vr_more_newer_than_b(packages_a: Seq<Package>, packages_b: Seq<Package>)
    ensures
        forall|i: int|
            0 <= i < vr_more_spec(packages_a, packages_b).len() ==> has_older_namesake(
                packages_b,
                (#[trigger] vr_more_spec(packages_a, packages_b)[i])@,
            ),
{
    let pred = newer_than_namesake_in(packages_b);
    assert forall|i: int| 0 <= i < vr_more_spec(packages_a, packages_b).len() implies has_older_namesake(
        packages_b,
        (#[trigger] vr_more_spec(packages_a, packages_b)[i])@,
    ) by {
        packages_a.lemma_filter_pred(pred, i);
    }
}

/// When no two packages of branch B share a name, every package returned as newer has a
/// greater version than each package of branch B with its name.
pub proof fn lemma_vr_more_newer_than_every_namesake(packages_a: Seq<Package>, packages_b: Seq<Package>)
    requires
        forall|j: int, k: int|
            0 <= j < packages_b.len() && 0 <= k < packages_b.len() && j != k ==> (#[trigger] packages_b[j])@.name
                != (#[trigger] packages_b[k])@.name,
    ensures
        forall|i: int, j: int|
            0 <= i < vr_more_spec(packages_a, packages_b).len() && 0 <= j < packages_b.len() && (
            #[trigger] packages_b[j])@.name == (#[trigger] vr_more_spec(packages_a, packages_b)[i])@.name
                ==> version_order(vr_more_spec(packages_a, packages_b)[i]@, packages_b[j]@) == Ordering::Greater,
{
    lemma_vr_more_newer_than_b(packages_a, packages_b);
    assert forall|i: int, j: int|
        0 <= i < vr_more_spec(packages_a, packages_b).len() && 0 <= j < packages_b.len() && (
        #[trigger] packages_b[j])@.name == (#[trigger] vr_more_spec(packages_a, packages_b)[i])@.name
        implies version_order(vr_more_spec(packages_a, packages_b)[i]@, packages_b[j]@) == Ordering::Greater by {
        let p = vr_more_spec(packages_a, packages_b)[i];
        assert(has_older_namesake(packages_b, p@));
        let k = choose|k: int|
            0 <= k < packages_b.len() && (#[trigger] packages_b[k])@.name == p@.name
                && version_order(p@, packages_b[k]@) == Ordering::Greater;
        if k != j {
            assert(packages_b[j]@.name != packages_b[k]@.name);
        }
    }
}

/// A package newer in branch A than in branch B is never one that only branch A has:
/// the two comparisons report disjoint packages.
pub proof fn lemma_vr_more_disjoint_from_only_a(packages_a: Seq<Package>, packages_b: Seq<Package>, package: Package)
    ensures
        !(vr_more_spec(packages_a, packages_b).contains(package) && only_a_spec(packages_a, packages_b).contains(
            package,
        )),
{
    lemma_vr_more_membership(packages_a, packages_b, package);
    lemma_only_a_membership(packages_a, packages_b, package);
    if vr_more_spec(packages_a, packages_b).contains(package) {
        let j = choose|j: int|
            0 <= j < packages_b.len() && (#[trigger] packages_b[j])@.name == package@.name
                && version_order(package@, packages_b[j]@) == Ordering::Greater;
        assert(has_package_named(packages_b, package@.name));
    }
}

/// Against a branch with no packages, no package is newer.
pub proof fn lemma_vr_more_against_empty(packages_a: Seq<Package>)
    ensures
        vr_more_spec(packages_a, Seq::empty()) == Seq::<Package>::empty(),
{
    let pred = newer_than_namesake_in(Seq::empty());
    packages_a.lemma_all_neg_filter_empty(pred);
    assert(vr_more_spec(packages_a, Seq::empty()) =~= Seq::<Package>::empty());
}

} // verus!
