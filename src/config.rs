//! Configuration of a conversion: options for everything, and options per package.
use vstd::prelude::*;
use crate::text::{str_eq, views};

verus! {

broadcast use vstd::string::group_string_axioms;

/// Options that apply to everything, with one entry of `variants` per build variant.
pub struct Config {
    pub variants: Vec<VariantConfig>,
    /// Package specific options across all variants, by package name.
    pub package: Vec<(String, PackageConfig)>,
}

/// Options of one build variant.
pub struct VariantConfig {
    /// Whether to emit test modules.
    pub tests: bool,
    /// Features to enable; when set, the default features are off.
    pub features: Option<Vec<String>>,
    /// Whether to build the whole workspace.
    pub workspace: bool,
    /// Packages left out of a workspace build.
    pub workspace_excludes: Vec<String>,
    /// Value of every generated module's `defaults` property.
    pub global_defaults: Option<String>,
    /// Value of every generated library module's `apex_available` property.
    pub apex_available: Vec<String>,
    pub product_available: bool,
    pub vendor_available: bool,
    pub min_sdk_version: Option<String>,
    /// Renames of modules, from the name that would be generated to the name emitted; they
    /// apply to references to dependencies too.
    pub module_name_overrides: Vec<(String, String)>,
    /// Package specific options, by package name.
    pub package: Vec<(String, PackageVariantConfig)>,
    /// `cfg` flags that are not passed on.
    pub cfg_blocklist: Vec<String>,
    /// Modules that are never generated.
    pub module_blocklist: Vec<String>,
    /// Module name to its `visibility` property.
    pub module_visibility: Vec<(String, Vec<String>)>,
    /// Whether to run the build and read its transcript.
    pub run_cargo: bool,
}

/// Options of a package for all variants.
pub struct PackageConfig {
    /// File whose text is appended to the package's build file.
    pub add_toplevel_block: Option<String>,
    /// Patch applied to the build file after it is written.
    pub patch: Option<String>,
}

/// Options of a package for one variant.
pub struct PackageVariantConfig {
    pub alloc: bool,
    /// Whether modules are built for the device.
    pub device_supported: bool,
    /// Whether modules are built for the host.
    pub host_supported: bool,
    pub host_first_multilib: bool,
    /// Emit `rust_library_rlib` in place of `rust_library`.
    pub force_rlib: bool,
    /// Turn off `unit_test` of test modules.
    pub no_presubmit: bool,
    /// File whose text is appended inside each generated module.
    pub add_module_block: Option<String>,
    /// Modules never added as dependencies.
    pub dep_blocklist: Vec<String>,
    pub no_std: bool,
    /// Copy the build script's outputs into the package and add a rule that provides them.
    pub copy_out: bool,
    /// Test source file to the files added to that test's `data`.
    pub test_data: Vec<(String, Vec<String>)>,
}

pub open spec fn pair_views(v: Seq<(String, String)>) -> Seq<(Seq<char>, Seq<char>)> {
    v.map_values(|e: (String, String)| (e.0@, e.1@))
}

/// The name that `k` is emitted as: the first rename of `k`, or `k` itself.
pub open spec fn renamed(o: Seq<(Seq<char>, Seq<char>)>, k: Seq<char>) -> Seq<char>
    decreases o.len(),
{
    if o.len() == 0 {
        k
    } else if o[0].0 == k {
        o[0].1
    } else {
        renamed(o.drop_first(), k)
    }
}

/// Looks up the rename of `k` in `o`.
pub fn rename(o: &Vec<(String, String)>, k: &str) -> (r: String)
    ensures
        r@ == renamed(pair_views(o@), k@),
{
    let ghost pv = pair_views(o@);
    let mut i: usize = 0;
    assert(pv.skip(0) =~= pv);
    while i < o.len()
        invariant
            i <= o@.len(),
            pv == pair_views(o@),
            renamed(pv, k@) == renamed(pv.skip(i as int), k@),
        decreases o.len() - i,
    {
        assert(pv.skip(i as int)[0] == pv[i as int]);
        assert(pv.skip(i as int).drop_first() =~= pv.skip(i + 1));
        if str_eq(o[i].0.as_str(), k) {
            return o[i].1.clone();
        }
        i = i + 1;
    }
    assert(pv.skip(i as int).len() == 0);
    k.to_string()
}

pub open spec fn default_apex_available_spec() -> Seq<Seq<char>> {
    seq!["//apex_available:platform"@, "//apex_available:anyapex"@]
}

/// The default value of `apex_available`.
pub fn default_apex_available() -> (r: Vec<String>)
    ensures
        views(r@) == default_apex_available_spec(),
{
    let r = vec!["//apex_available:platform".to_string(), "//apex_available:anyapex".to_string()];
    assert(views(r@) =~= default_apex_available_spec());
    r
}

/// Whether `a` is the default value of `apex_available`.
pub fn is_default_apex_available(a: &Vec<String>) -> (r: bool)
    ensures
        r == (views(a@) == default_apex_available_spec()),
{
    if a.len() != 2 {
        proof {
            if views(a@) == default_apex_available_spec() {
                assert(views(a@).len() == 2);
            }
        }
        return false;
    }
    let r = str_eq(a[0].as_str(), "//apex_available:platform") && str_eq(
        a[1].as_str(),
        "//apex_available:anyapex",
    );
    proof {
        if r {
            assert(views(a@) =~= default_apex_available_spec());
        } else if views(a@) == default_apex_available_spec() {
            assert(views(a@)[0] == a@[0]@);
            assert(views(a@)[1] == a@[1]@);
        }
    }
    r
}

pub fn default_true() -> (r: bool)
    ensures
        r,
{
    true
}

pub fn is_true(value: &bool) -> (r: bool)
    ensures
        r == *value,
{
    *value
}

pub fn is_false(value: &bool) -> (r: bool)
    ensures
        r == !*value,
{
    !*value
}

impl Default for VariantConfig {
    fn default() -> (r: VariantConfig)
        ensures
            !r.tests,
            r.features is None,
            !r.workspace,
            r.workspace_excludes@.len() == 0,
            r.global_defaults is None,
            views(r.apex_available@) == default_apex_available_spec(),
            r.product_available,
            r.vendor_available,
            r.min_sdk_version is None,
            r.module_name_overrides@.len() == 0,
            r.package@.len() == 0,
            r.cfg_blocklist@.len() == 0,
            r.module_blocklist@.len() == 0,
            r.module_visibility@.len() == 0,
            r.run_cargo,
    {
        VariantConfig {
            tests: false,
            features: None,
            workspace: false,
            workspace_excludes: Vec::new(),
            global_defaults: None,
            apex_available: default_apex_available(),
            product_available: true,
            vendor_available: true,
            min_sdk_version: None,
            module_name_overrides: Vec::new(),
            package: Vec::new(),
            cfg_blocklist: Vec::new(),
            module_blocklist: Vec::new(),
            module_visibility: Vec::new(),
            run_cargo: true,
        }
    }
}

impl Default for PackageVariantConfig {
    fn default() -> (r: PackageVariantConfig)
        ensures
            !r.alloc,
            r.device_supported,
            r.host_supported,
            !r.host_first_multilib,
            !r.force_rlib,
            !r.no_presubmit,
            r.add_module_block is None,
            r.dep_blocklist@.len() == 0,
            !r.no_std,
            !r.copy_out,
            r.test_data@.len() == 0,
    {
        PackageVariantConfig {
            alloc: false,
            device_supported: true,
            host_supported: true,
            host_first_multilib: false,
            force_rlib: false,
            no_presubmit: false,
            add_module_block: None,
            dep_blocklist: Vec::new(),
            no_std: false,
            copy_out: false,
            test_data: Vec::new(),
        }
    }
}

impl Default for PackageConfig {
    fn default() -> (r: PackageConfig)
        ensures
            r.add_toplevel_block is None,
            r.patch is None,
    {
        PackageConfig { add_toplevel_block: None, patch: None }
    }
}

impl VariantConfig {
    /// The position of the options of package `name` in `package`, if it has any.
    pub fn find_package(&self, name: &str) -> (r: Option<usize>)
        ensures
            r matches Some(i) ==> i < self.package@.len() && self.package@[i as int].0@ == name@
                && forall|j: int| 0 <= j < i ==> self.package@[j].0@ != name@,
            r is None ==> forall|j: int| 0 <= j < self.package@.len() ==> self.package@[j].0@ != name@,
    {
        let mut i: usize = 0;
        while i < self.package.len()
            invariant
                i <= self.package@.len(),
                forall|j: int| 0 <= j < i ==> self.package@[j].0@ != name@,
            decreases self.package.len() - i,
        {
            if str_eq(self.package[i].0.as_str(), name) {
                return Some(i);
            }
            i = i + 1;
        }
        None
    }

    /// Whether some package has its build script's outputs copied.
    pub fn any_copy_out(&self) -> (r: bool)
        ensures
            r == exists|j: int| 0 <= j < self.package@.len() && #[trigger] self.package@[j].1.copy_out,
    {
        let mut i: usize = 0;
        while i < self.package.len()
            invariant
                i <= self.package@.len(),
                forall|j: int| 0 <= j < i ==> !#[trigger] self.package@[j].1.copy_out,
            decreases self.package.len() - i,
        {
            if self.package[i].1.copy_out {
                return true;
            }
            i = i + 1;
        }
        false
    }
}

impl Config {
    /// The position of the options of package `name` in `package`, if it has any.
    pub fn find_package(&self, name: &str) -> (r: Option<usize>)
        ensures
            r matches Some(i) ==> i < self.package@.len() && self.package@[i as int].0@ == name@
                && forall|j: int| 0 <= j < i ==> self.package@[j].0@ != name@,
            r is None ==> forall|j: int| 0 <= j < self.package@.len() ==> self.package@[j].0@ != name@,
    {
        let mut i: usize = 0;
        while i < self.package.len()
            invariant
                i <= self.package@.len(),
                forall|j: int| 0 <= j < i ==> self.package@[j].0@ != name@,
            decreases self.package.len() - i,
        {
            if str_eq(self.package[i].0.as_str(), name) {
                return Some(i);
            }
            i = i + 1;
        }
        None
    }
}

} // verus!
