use compare_packages::api_alt_json_templates::Package;
use compare_packages::architecture_support::{
    extract_architectures_from_packages, fetch_supported_architectures, is_architecture_supported_for_brunch,
    packages_request_url, Arch, API_ALT_URL,
};
use compare_packages::branches::{other_branches, Branch};
use compare_packages::cases::fetch_only_packages_from_a_branch::{fetch_only_packages_from_a_branch, only_a_packages};
use compare_packages::cases::fetch_vr_more_in_a_than_b_branch::{
    fetch_vr_more_in_a_than_b_branch, is_newer, package_version_ordering,
};
use compare_packages::cases::{fetch_only_packages_from_selected_branch, fetch_vr_more_in_sisyphus_than_p10};
use compare_packages::decimal::{i32_to_decimal, u32_to_decimal};
use compare_packages::{
    check_architecture_support, fetch_error_for_output, handle_fetch_error, packages_from_response, FetchError,
};
use std::cmp::Ordering;

fn pkg(name: &str, epoch: i32, version: &str, release: &str, arch: &str) -> Package {
    Package::new(
        name.to_string(),
        epoch,
        version.to_string(),
        release.to_string(),
        arch.to_string(),
    )
}

fn names(packages: &[Package]) -> Vec<String> {
    packages.iter().map(|p| p.name_ref().to_string()).collect()
}

#[test]
fn branch_names() {
    assert_eq!(Branch::Sisyphus.as_str(), "sisyphus");
    assert_eq!(Branch::P9.as_str(), "p9");
    assert_eq!(Branch::P10.as_str(), "p10");
    assert_eq!(Branch::P11.as_str(), "p11");
}

#[test]
fn request_url_appends_branch_name() {
    assert_eq!(
        packages_request_url(Branch::P10),
        "https://rdb.altlinux.org/api/export/branch_binary_packages/p10"
    );
    assert_eq!(packages_request_url(Branch::Sisyphus), format!("{}sisyphus", API_ALT_URL));
}

#[test]
fn package_getters_return_fields() {
    let p = pkg("bash", 2, "5.2.15", "alt1", "x86_64");
    assert_eq!(p.name_ref(), "bash");
    assert_eq!(*p.epoch_ref(), 2);
    assert_eq!(p.version_ref(), "5.2.15");
    assert_eq!(p.release_ref(), "alt1");
    assert_eq!(p.arch_ref(), "x86_64");
}

#[test]
fn only_a_keeps_packages_missing_from_b() {
    let a = vec![
        pkg("vim", 0, "9.0", "alt1", "x86_64"),
        pkg("emacs", 0, "29.1", "alt1", "x86_64"),
        pkg("nano", 0, "7.2", "alt1", "x86_64"),
        pkg("mc", 0, "4.8", "alt1", "x86_64"),
    ];
    let b = vec![
        pkg("emacs", 0, "28.2", "alt1", "x86_64"),
        pkg("mc", 0, "4.8", "alt1", "noarch"),
        pkg("ed", 0, "1.19", "alt1", "x86_64"),
    ];
    let only = only_a_packages(a, b);
    assert_eq!(names(&only), vec!["vim", "nano"]);
}

#[test]
fn only_a_against_empty_branch_keeps_everything() {
    let a = vec![pkg("vim", 0, "9.0", "alt1", "x86_64"), pkg("nano", 0, "7.2", "alt1", "x86_64")];
    let only = only_a_packages(a, vec![]);
    assert_eq!(names(&only), vec!["vim", "nano"]);
}

#[test]
fn only_a_against_itself_is_empty() {
    let a = vec![pkg("vim", 0, "9.0", "alt1", "x86_64"), pkg("nano", 0, "7.2", "alt1", "x86_64")];
    let b = vec![pkg("nano", 0, "1.0", "alt9", "i586"), pkg("vim", 1, "1.0", "alt2", "i586")];
    assert!(only_a_packages(a, b).is_empty());
}

#[test]
fn only_a_twice_changes_nothing() {
    let a = vec![pkg("vim", 0, "9.0", "alt1", "x86_64"), pkg("nano", 0, "7.2", "alt1", "x86_64")];
    let b = || vec![pkg("nano", 0, "7.2", "alt1", "x86_64")];
    let once = only_a_packages(a, b());
    let once_names = names(&once);
    let twice = only_a_packages(once, b());
    assert_eq!(names(&twice), once_names);
}

#[test]
fn only_packages_of_a_branch_when_b_was_fetched() {
    let a = vec![pkg("vim", 0, "9.0", "alt1", "x86_64"), pkg("nano", 0, "7.2", "alt1", "x86_64")];
    let b = Ok(vec![pkg("vim", 0, "9.1", "alt1", "x86_64")]);
    let only = fetch_only_packages_from_a_branch(a, b);
    assert_eq!(names(&only), vec!["nano"]);
}

#[test]
fn only_packages_of_a_branch_fall_back_when_b_failed() {
    let a = vec![pkg("vim", 0, "9.0", "alt1", "x86_64"), pkg("nano", 0, "7.2", "alt1", "x86_64")];
    let b = Err(FetchError::Other("connection refused".to_string()));
    let only = fetch_only_packages_from_a_branch(a, b);
    assert_eq!(names(&only), vec!["vim", "nano"]);
}

#[test]
fn selected_branch_picks_the_side() {
    let sisyphus = || vec![pkg("vim", 0, "9.0", "alt1", "x86_64"), pkg("nano", 0, "7.2", "alt1", "x86_64")];
    let p10 = || vec![pkg("vim", 0, "8.2", "alt1", "x86_64"), pkg("joe", 0, "4.6", "alt1", "x86_64")];
    let only_sisyphus = fetch_only_packages_from_selected_branch(Branch::Sisyphus, sisyphus(), p10());
    assert_eq!(names(&only_sisyphus), vec!["nano"]);
    let only_p10 = fetch_only_packages_from_selected_branch(Branch::P10, sisyphus(), p10());
    assert_eq!(names(&only_p10), vec!["joe"]);
}

#[test]
fn version_ordering_follows_rpm_rules() {
    let newer = pkg("foo", 0, "1.10", "alt1", "x86_64");
    let older = pkg("foo", 0, "1.9", "alt1", "x86_64");
    assert_eq!(package_version_ordering(&newer, &older), Ordering::Greater);
    assert_eq!(package_version_ordering(&older, &newer), Ordering::Less);
    assert_eq!(package_version_ordering(&newer, &newer), Ordering::Equal);
}

#[test]
fn version_ordering_epoch_dominates() {
    let high_epoch = pkg("foo", 1, "1.0", "alt1", "x86_64");
    let high_version = pkg("foo", 0, "2.0", "alt1", "x86_64");
    assert_eq!(package_version_ordering(&high_epoch, &high_version), Ordering::Greater);
    assert_eq!(package_version_ordering(&high_version, &high_epoch), Ordering::Less);
}

#[test]
fn version_ordering_compares_release() {
    let a = pkg("foo", 0, "1.0", "alt2", "x86_64");
    let b = pkg("foo", 0, "1.0", "alt1", "x86_64");
    assert_eq!(package_version_ordering(&a, &b), Ordering::Greater);
}

#[test]
fn version_ordering_ignores_name_and_arch() {
    let a = pkg("foo", 0, "1.0", "alt1", "x86_64");
    let b = pkg("bar", 0, "1.0", "alt1", "noarch");
    assert_eq!(package_version_ordering(&a, &b), Ordering::Equal);
}

#[test]
fn newer_packages_in_a_than_b() {
    let a = vec![
        pkg("foo", 0, "1.2", "alt1", "x86_64"),
        pkg("bar", 0, "2.0", "alt1", "x86_64"),
        pkg("baz", 1, "0.1", "alt1", "x86_64"),
        pkg("qux", 0, "3.0", "alt1", "x86_64"),
        pkg("old", 0, "1.0", "alt1", "x86_64"),
    ];
    let b = vec![
        pkg("foo", 0, "1.1", "alt1", "x86_64"),
        pkg("bar", 0, "2.0", "alt1", "x86_64"),
        pkg("baz", 0, "9.9", "alt1", "x86_64"),
        pkg("old", 0, "1.0", "alt2", "x86_64"),
    ];
    let newer = fetch_vr_more_in_a_than_b_branch(a, b);
    assert_eq!(names(&newer), vec!["foo", "baz"]);
}

#[test]
fn newer_packages_against_empty_branch() {
    let a = vec![pkg("foo", 0, "1.2", "alt1", "x86_64")];
    assert!(fetch_vr_more_in_a_than_b_branch(a, vec![]).is_empty());
}

#[test]
fn newer_packages_match_any_namesake() {
    let a = vec![pkg("foo", 0, "2.0", "alt1", "x86_64")];
    let b = vec![pkg("foo", 0, "3.0", "alt1", "x86_64"), pkg("foo", 0, "1.0", "alt1", "i586")];
    assert_eq!(names(&fetch_vr_more_in_a_than_b_branch(a, b)), vec!["foo"]);
}

#[test]
fn newer_in_sisyphus_than_p10() {
    let sisyphus = vec![pkg("foo", 0, "1.2", "alt1", "x86_64"), pkg("bar", 0, "1.0", "alt1", "x86_64")];
    let p10 = vec![pkg("foo", 0, "1.1", "alt3", "x86_64"), pkg("bar", 0, "1.1", "alt1", "x86_64")];
    assert_eq!(names(&fetch_vr_more_in_sisyphus_than_p10(sisyphus, p10)), vec!["foo"]);
}

#[test]
fn decimal_numerals() {
    assert_eq!(u32_to_decimal(0), "0");
    assert_eq!(u32_to_decimal(4294967295), "4294967295");
    assert_eq!(i32_to_decimal(0), "0");
    assert_eq!(i32_to_decimal(7), "7");
    assert_eq!(i32_to_decimal(42), "42");
    assert_eq!(i32_to_decimal(-5), "-5");
    assert_eq!(i32_to_decimal(1000), "1000");
    assert_eq!(i32_to_decimal(i32::MAX), "2147483647");
    assert_eq!(i32_to_decimal(i32::MIN), "-2147483648");
    for n in [-1234567, -10, -1, 1, 9, 10, 99, 100, 65535] {
        assert_eq!(i32_to_decimal(n), n.to_string());
    }
}

#[test]
fn architectures_extracted_once_each() {
    let packages = vec![
        pkg("a", 0, "1", "alt1", "x86_64"),
        pkg("b", 0, "1", "alt1", "noarch"),
        pkg("c", 0, "1", "alt1", "x86_64"),
        pkg("d", 0, "1", "alt1", "i586"),
        pkg("e", 0, "1", "alt1", "noarch"),
    ];
    assert_eq!(extract_architectures_from_packages(&packages), vec!["x86_64", "noarch", "i586"]);
    assert!(extract_architectures_from_packages(&[]).is_empty());
}

#[test]
fn supported_architectures_of_both_branches() {
    let a = vec![pkg("a", 0, "1", "alt1", "x86_64"), pkg("b", 0, "1", "alt1", "noarch")];
    let b = vec![
        pkg("a", 0, "1", "alt1", "aarch64"),
        pkg("b", 0, "1", "alt1", "x86_64"),
        pkg("c", 0, "1", "alt1", "aarch64"),
    ];
    let archs = fetch_supported_architectures(&a, &b);
    let archs: Vec<&str> = archs.iter().map(|a| a.inner_ref()).collect();
    assert_eq!(archs, vec!["x86_64", "noarch", "aarch64"]);
}

#[test]
fn success_status_means_supported() {
    assert!(is_architecture_supported_for_brunch(200));
    assert!(is_architecture_supported_for_brunch(204));
    assert!(is_architecture_supported_for_brunch(299));
    assert!(!is_architecture_supported_for_brunch(199));
    assert!(!is_architecture_supported_for_brunch(300));
    assert!(!is_architecture_supported_for_brunch(404));
    assert!(!is_architecture_supported_for_brunch(500));
}

#[test]
fn unsupported_architecture_is_reported() {
    let arch = Arch::new("riscv64".to_string());
    assert_eq!(arch.inner_ref(), "riscv64");
    assert!(check_architecture_support(Branch::P9, &arch, true).is_ok());
    match check_architecture_support(Branch::P9, &arch, false) {
        Err(FetchError::ArchNotSupported { branch, arch }) => {
            assert_eq!(branch, "p9");
            assert_eq!(arch, "riscv64");
        }
        other => panic!("unexpected outcome: {:?}", other),
    }
}

#[test]
fn response_errors_become_other() {
    match packages_from_response(Err("timed out".to_string())) {
        Err(FetchError::Other(text)) => assert_eq!(text, "timed out"),
        other => panic!("unexpected outcome: {:?}", other.map(|p| p.len())),
    }
    match packages_from_response(Ok(vec![pkg("a", 0, "1", "alt1", "x86_64")])) {
        Ok(packages) => assert_eq!(names(&packages), vec!["a"]),
        Err(e) => panic!("unexpected error: {:?}", e),
    }
}

#[test]
fn fetch_errors_fall_back() {
    let fallback = vec![pkg("a", 0, "1", "alt1", "x86_64")];
    let kept = handle_fetch_error(FetchError::Other("x".to_string()), fallback);
    assert_eq!(names(&kept), vec!["a"]);
    let none = fetch_error_for_output(FetchError::ArchNotSupported {
        branch: "p10".to_string(),
        arch: "armh".to_string(),
    });
    assert!(none.is_empty());
}

#[test]
fn newer_and_only_a_are_disjoint() {
    let a = || {
        vec![
            pkg("foo", 0, "1.2", "alt1", "x86_64"),
            pkg("bar", 0, "2.0", "alt1", "x86_64"),
            pkg("solo", 0, "1.0", "alt1", "x86_64"),
        ]
    };
    let b = || vec![pkg("foo", 0, "1.1", "alt1", "x86_64"), pkg("bar", 0, "2.1", "alt1", "x86_64")];
    let newer = names(&fetch_vr_more_in_a_than_b_branch(a(), b()));
    let only = names(&only_a_packages(a(), b()));
    assert_eq!(newer, vec!["foo"]);
    assert_eq!(only, vec!["solo"]);
    assert!(newer.iter().all(|n| !only.contains(n)));
}

#[test]
fn newer_package_beats_its_namesake_in_b() {
    let a = vec![pkg("foo", 2, "0.9", "alt1", "x86_64"), pkg("bar", 0, "1.0", "alt1", "x86_64")];
    let b = vec![pkg("foo", 1, "5.0", "alt7", "x86_64"), pkg("bar", 0, "1.0", "alt1", "x86_64")];
    let newer = fetch_vr_more_in_a_than_b_branch(a, b);
    let b = vec![pkg("foo", 1, "5.0", "alt7", "x86_64"), pkg("bar", 0, "1.0", "alt1", "x86_64")];
    for p in &newer {
        for q in b.iter().filter(|q| q.name_ref() == p.name_ref()) {
            assert_eq!(package_version_ordering(p, q), Ordering::Greater);
            assert_eq!(package_version_ordering(q, p), Ordering::Less);
        }
    }
    assert_eq!(names(&newer), vec!["foo"]);
}

#[test]
fn branch_names_are_distinct() {
    let all = [Branch::Sisyphus, Branch::P9, Branch::P10, Branch::P11];
    for x in all {
        for y in all {
            assert_eq!(x.as_str() == y.as_str(), x == y);
        }
    }
}

#[test]
fn supported_architectures_come_from_the_branches() {
    let a = vec![pkg("a", 0, "1", "alt1", "x86_64"), pkg("b", 0, "1", "alt1", "x86_64")];
    let b = vec![pkg("c", 0, "1", "alt1", "armh"), pkg("d", 0, "1", "alt1", "x86_64")];
    let archs = fetch_supported_architectures(&a, &b);
    for arch in &archs {
        assert!(a.iter().chain(b.iter()).any(|p| p.arch_ref() == arch.inner_ref()));
    }
    for p in a.iter().chain(b.iter()) {
        assert_eq!(archs.iter().filter(|arch| arch.inner_ref() == p.arch_ref()).count(), 1);
    }
}

#[test]
fn newer_means_greater() {
    assert!(is_newer(Ordering::Greater));
    assert!(!is_newer(Ordering::Equal));
    assert!(!is_newer(Ordering::Less));
}

#[test]
fn other_branches_leave_out_the_chosen_one() {
    assert_eq!(other_branches(Branch::Sisyphus), vec![Branch::P9, Branch::P10, Branch::P11]);
    assert_eq!(other_branches(Branch::P9), vec![Branch::Sisyphus, Branch::P10, Branch::P11]);
    assert_eq!(other_branches(Branch::P10), vec![Branch::Sisyphus, Branch::P9, Branch::P11]);
    assert_eq!(other_branches(Branch::P11), vec![Branch::Sisyphus, Branch::P9, Branch::P10]);
}

#[test]
fn version_ordering_is_antisymmetric_reflexive_and_transitive() {
    let a = pkg("x", 0, "2.0", "alt1", "x86_64");
    let b = pkg("y", 0, "1.5", "alt3", "noarch");
    let c = pkg("z", 0, "1.5", "alt2", "i586");
    let a_again = pkg("w", 0, "2.0", "alt1", "aarch64");
    assert_eq!(package_version_ordering(&a, &b), package_version_ordering(&b, &a).reverse());
    assert_eq!(package_version_ordering(&a, &a), Ordering::Equal);
    assert_eq!(package_version_ordering(&a, &a_again), Ordering::Equal);
    assert_eq!(package_version_ordering(&a, &b), Ordering::Greater);
    assert_eq!(package_version_ordering(&b, &c), Ordering::Greater);
    assert_eq!(package_version_ordering(&a, &c), Ordering::Greater);
}

#[test]
fn branch_is_never_newer_than_itself() {
    let l = || {
        vec![
            pkg("foo", 0, "1.2", "alt1", "x86_64"),
            pkg("bar", 3, "2.0", "alt1", "x86_64"),
        ]
    };
    assert!(fetch_vr_more_in_a_than_b_branch(l(), l()).is_empty());
}

#[test]
fn newer_both_ways_share_no_name() {
    let x = || vec![pkg("foo", 0, "1.2", "alt1", "x86_64"), pkg("bar", 0, "1.0", "alt1", "x86_64")];
    let y = || vec![pkg("foo", 0, "1.1", "alt1", "x86_64"), pkg("bar", 0, "1.1", "alt1", "x86_64")];
    let xy = names(&fetch_vr_more_in_a_than_b_branch(x(), y()));
    let yx = names(&fetch_vr_more_in_a_than_b_branch(y(), x()));
    assert_eq!(xy, vec!["foo"]);
    assert_eq!(yx, vec!["bar"]);
}

#[test]
fn larger_b_only_removes_packages() {
    let a = || {
        vec![
            pkg("vim", 0, "9.0", "alt1", "x86_64"),
            pkg("nano", 0, "7.2", "alt1", "x86_64"),
            pkg("joe", 0, "4.6", "alt1", "x86_64"),
        ]
    };
    let b = || vec![pkg("vim", 0, "9.1", "alt1", "x86_64")];
    let mut bc = b();
    bc.push(pkg("joe", 0, "4.5", "alt1", "x86_64"));
    assert_eq!(names(&only_a_packages(a(), b())), vec!["nano", "joe"]);
    assert_eq!(names(&only_a_packages(a(), bc)), vec!["nano"]);
}

#[test]
fn p10_namesakes_are_older_than_newer_sisyphus_packages() {
    let sisyphus = vec![pkg("foo", 0, "1.2", "alt1", "x86_64"), pkg("bar", 0, "1.0", "alt1", "x86_64")];
    let p10 = vec![pkg("foo", 0, "1.1", "alt3", "x86_64"), pkg("bar", 0, "1.1", "alt1", "x86_64")];
    let newer = fetch_vr_more_in_sisyphus_than_p10(sisyphus, p10);
    let p10 = vec![pkg("foo", 0, "1.1", "alt3", "x86_64"), pkg("bar", 0, "1.1", "alt1", "x86_64")];
    assert_eq!(names(&newer), vec!["foo"]);
    for q in &p10 {
        for x in newer.iter().filter(|x| x.name_ref() == q.name_ref()) {
            assert_eq!(package_version_ordering(q, x), Ordering::Less);
        }
    }
}
