use vstd::prelude::*;

verus! {

/// One binary package of a branch, as the ALT Linux database describes it.
pub struct Package {
    name: String,
    epoch: i32,
    version: String,
    release: String,
    arch: String,
}

/// The mathematical content of a [`Package`].
pub struct PackageView {
    pub name: Seq<char>,
    pub epoch: i32,
    pub version: Seq<char>,
    pub release: Seq<char>,
    pub arch: Seq<char>,
}

impl View for Package {
    type V = PackageView;

    closed spec fn view(&self) -> PackageView {
        PackageView {
            name: self.name@,
            epoch: self.epoch,
            version: self.version@,
            release: self.release@,
            arch: self.arch@,
        }
    }
}

impl Package {
    /// Builds a package from its name, epoch, version, release and architecture.
    pub fn new(name: String, epoch: i32, version: String, release: String, arch: String) -> (package: Package)
        ensures
            package@ == (PackageView {
                name: name@,
                epoch: epoch,
                version: version@,
                release: release@,
                arch: arch@,
            }),
    {
        Package { name, epoch, version, release, arch }
    }

    pub fn name_ref(&self) -> (name: &str)
        ensures
            name@ == self@.name,
    {
        self.name.as_str()
    }

    pub fn arch_ref(&self) -> (arch: &str)
        ensures
            arch@ == self@.arch,
    {
        self.arch.as_str()
    }

    pub fn epoch_ref(&self) -> (epoch: &i32)
        ensures
            *epoch == self@.epoch,
    {
        &self.epoch
    }

    pub fn version_ref(&self) -> (version: &str)
        ensures
            version@ == self@.version,
    {
        self.version.as_str()
    }

    pub fn release_ref(&self) -> (release: &str)
        ensures
            release@ == self@.release,
    {
        self.release.as_str()
    }

    /// Whether two packages are built for the same architecture.
    pub(crate) fn same_arch(&self, other: &Package) -> (same: bool)
        ensures
            same == (self@.arch == other@.arch),
    {
        self.arch == other.arch
    }

    /// Whether two packages carry the same name.
    pub(crate) fn same_name(&self, other: &Package) -> (same: bool)
        ensures
            same == (self@.name == other@.name),
    {
        self.name == other.name
    }
}

/// The architectures of `packages`, one per package, in order.
pub open spec fn package_archs(packages: Seq<Package>) -> Seq<Seq<char>> {
    packages.map_values(|p: Package| p@.arch)
}

/// Whether no two packages of `packages` carry the same name.
pub open spec fn names_distinct(packages: Seq<Package>) -> bool {
    forall|j: int, k: int|
        0 <= j < packages.len() && 0 <= k < packages.len() && j != k ==> (#[trigger] packages[j])@.name
            != (#[trigger] packages[k])@.name
}

/// Whether some package of `packages` is named `name`.
pub open spec fn has_package_named(packages: Seq<Package>, name: Seq<char>) -> bool {
    exists|j: int| 0 <= j < packages.len() && (#[trigger] packages[j])@.name == name
}

} // verus!
