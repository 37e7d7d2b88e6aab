//! The crates of a build: one per compiler invocation, placed in the package that owns it.
use vstd::prelude::*;
use crate::decode::{decoded_wf, is_crate_type, opt_view, DecodeError, DecodeFailure, Invocation};
use crate::text::{chars_of, find_last, has_prefix, last_index, str_starts_with, string_of_range, views};

verus! {

broadcast use vstd::string::group_string_axioms;

/// A Rust edition.
#[derive(Clone, Copy, Debug, PartialEq, Eq, Structural)]
pub enum Edition {
    E2015,
    E2018,
    E2021,
    E2024,
}

pub open spec fn edition_text(e: Edition) -> Seq<char> {
    match e {
        Edition::E2015 => "2015"@,
        Edition::E2018 => "2018"@,
        Edition::E2021 => "2021"@,
        Edition::E2024 => "2024"@,
    }
}

impl Edition {
    /// The edition's year, as text.
    pub fn to_text(&self) -> (r: String)
        ensures
            r@ == edition_text(*self),
    {
        match self {
            Edition::E2015 => "2015".to_string(),
            Edition::E2018 => "2018".to_string(),
            Edition::E2021 => "2021".to_string(),
            Edition::E2024 => "2024".to_string(),
        }
    }
}

/// What a package's manifest says of it.
pub struct PackageInfo {
    pub name: String,
    pub version: String,
    pub edition: Edition,
}

/// The directory above a path: `None` for the empty path and for the root.
pub open spec fn parent_of(p: Seq<char>) -> Option<Seq<char>> {
    if p.len() == 0 {
        None
    } else {
        match last_index(p, '/') {
            None => Some(Seq::empty()),
            Some(j) => if j == 0 {
                if p.len() == 1 { None } else { Some(seq!['/']) }
            } else {
                Some(p.subrange(0, j))
            },
        }
    }
}

/// The directory above `p`.
pub fn parent_dir(p: &str) -> (r: Option<String>)
    ensures
        opt_view(r) == parent_of(p@),
{
    let cs = chars_of(p);
    if cs.len() == 0 {
        return None;
    }
    match find_last(&cs, '/') {
        None => Some(String::new()),
        Some(j) => {
            if j == 0 {
                if cs.len() == 1 {
                    None
                } else {
                    let r = string_of_range(&cs, 0, 1);
                    assert(r@ =~= seq!['/']);
                    Some(r)
                }
            } else {
                Some(string_of_range(&cs, 0, j))
            }
        },
    }
}

/// `path` relative to the directory `dir`, when `dir` is the empty path, the path itself or
/// one of the directories above it.
pub open spec fn rel_path(path: Seq<char>, dir: Seq<char>) -> Option<Seq<char>> {
    if dir.len() == 0 {
        Some(path)
    } else if dir == seq!['/'] {
        if has_prefix(path, dir) { Some(path.subrange(1, path.len() as int)) } else { None }
    } else if path == dir {
        Some(Seq::empty())
    } else if has_prefix(path, dir) && path.len() > dir.len() && path[dir.len() as int] == '/' {
        Some(path.subrange(dir.len() as int + 1, path.len() as int))
    } else {
        None
    }
}

/// `path` relative to `dir`; see `rel_path`.
pub fn relative_path(path: &str, dir: &str) -> (r: Option<String>)
    ensures
        opt_view(r) == rel_path(path@, dir@),
{
    let pc = chars_of(path);
    let dc = chars_of(dir);
    if dc.len() == 0 {
        return Some(path.to_string());
    }
    if dc.len() == 1 && dc[0] == '/' {
        assert(dc@ =~= seq!['/']);
        if pc.len() >= 1 && pc[0] == '/' {
            assert(pc@.subrange(0, 1) =~= dc@);
            return Some(string_of_range(&pc, 1, pc.len()));
        } else {
            assert(!has_prefix(pc@, dc@) || pc@.subrange(0, 1)[0] == '/');
            return None;
        }
    }
    assert(dc@ != seq!['/']);
    if crate::text::occurs_at_exec(&pc, &dc, 0) {
        assert(pc@.subrange(0, dc@.len() as int) == dc@);
        if pc.len() == dc.len() {
            assert(pc@ =~= dc@);
            return Some(String::new());
        }
        if pc[dc.len()] == '/' {
            assert(pc@ != dc@);
            return Some(string_of_range(&pc, dc.len() + 1, pc.len()));
        }
    }
    proof {
        if pc@ == dc@ {
            assert(pc@.subrange(0, dc@.len() as int) =~= dc@);
        }
    }
    None
}

/// One output of one compiler invocation.
pub struct Crate {
    pub name: String,
    /// Name of the owning package, from its manifest; it may differ from `name` for tests.
    pub package_name: String,
    pub version: Option<String>,
    pub types: Vec<String>,
    pub test: bool,
    pub target: Option<String>,
    pub features: Vec<String>,
    pub cfgs: Vec<String>,
    /// Dependencies by name, with the file name of the artifact where it was given.
    pub externs: Vec<(String, Option<String>)>,
    pub codegens: Vec<String>,
    pub cap_lints: String,
    pub static_libs: Vec<String>,
    pub shared_libs: Vec<String>,
    pub emit_list: String,
    pub edition: Edition,
    /// The directory of the owning package.
    pub package_dir: String,
    /// The main source file, relative to `package_dir`.
    pub main_src: String,
}

impl Crate {
    /// A crate has a name and a main source, exactly one of crate types and the test flag,
    /// known crate types, and not both `lib` and `rlib`.
    pub open spec fn wf(&self) -> bool {
        &&& self.name@.len() > 0
        &&& self.main_src@.len() > 0
        &&& (self.types@.len() > 0) != self.test
        &&& !(views(self.types@).contains("lib"@) && views(self.types@).contains("rlib"@))
        &&& forall|k: int| 0 <= k < self.types@.len() ==> is_crate_type(#[trigger] views(self.types@)[k])
    }

    /// No well-formed crate has both crate types and the test flag.
    pub proof fn lemma_test_exclusive(&self)
        requires
            self.wf(),
        ensures
            !(self.types@.len() > 0 && self.test),
    {
    }

    /// Places a decoded invocation in the package at `package_dir`, whose manifest says
    /// `package`. Fails where `package_dir` is not above the main source, or is the source itself.
    pub fn from_invocation(inv: Invocation, package_dir: &str, package: PackageInfo) -> (r: Result<Crate, DecodeError>)
        requires
            decoded_wf(inv@),
        ensures
            match rel_path(inv@.src->0, package_dir@) {
                Some(rel) => if rel.len() > 0 {
                    r matches Ok(c) && c.wf() && c.main_src@ == rel && c.package_dir@ == package_dir@
                        && c.name@ == inv@.name && views(c.types@) == inv@.types && c.test == inv@.test
                        && opt_view(c.target) == inv@.target && views(c.features@) == inv@.features
                        && views(c.cfgs@) == inv@.cfgs && crate::decode::extern_views(c.externs@) == inv@.externs
                        && views(c.codegens@) == inv@.codegens && c.cap_lints@ == inv@.cap_lints
                        && views(c.static_libs@) == inv@.static_libs
                        && views(c.shared_libs@) == inv@.shared_libs && c.emit_list@ == inv@.emit_list
                        && c.package_name == package.name && c.version == Some(package.version)
                        && c.edition == package.edition
                } else {
                    r matches Err(e) && e@ == DecodeFailure::MissingMainSource
                },
                None => r matches Err(e) && e@ == DecodeFailure::NoManifest(inv@.src->0),
            },
    {
        let src = match &inv.src {
            Some(s) => s.clone(),
            None => String::new(),
        };
        let rel = match relative_path(src.as_str(), package_dir) {
            Some(r) => r,
            None => {
                return Err(DecodeError::NoManifest(src));
            },
        };
        if rel.as_str().is_empty() {
            return Err(DecodeError::MissingMainSource);
        }
        Ok(Crate {
            name: inv.name,
            package_name: package.name,
            version: Some(package.version),
            types: inv.types,
            test: inv.test,
            target: inv.target,
            features: inv.features,
            cfgs: inv.cfgs,
            externs: inv.externs,
            codegens: inv.codegens,
            cap_lints: inv.cap_lints,
            static_libs: inv.static_libs,
            shared_libs: inv.shared_libs,
            emit_list: inv.emit_list,
            edition: package.edition,
            package_dir: package_dir.to_string(),
            main_src: rel,
        })
    }

    /// Whether the crate gets modules: build scripts and crates outside the workspace do not.
    pub fn is_included(&self) -> (r: bool)
        ensures
            r == (!has_prefix(self.name@, "build_script_"@) && !has_prefix(self.package_dir@, "/"@)),
    {
        !str_starts_with(self.name.as_str(), "build_script_") && !str_starts_with(self.package_dir.as_str(), "/")
    }
}

} // verus!
