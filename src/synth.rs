//! Expanding a crate into the modules of its package's build file.
use vstd::prelude::*;
use crate::bp::{value_view, BpModule, BpProperties, BpValue, ValueView, items_view};
use crate::config::{pair_views, rename, renamed, PackageVariantConfig, VariantConfig};
use crate::crates::{edition_text, Crate};
use crate::decode::{drop_chars, extern_views, opt_view};
use crate::text::{chars_of, contains_str, find_last, has_prefix, has_suffix, last_index, sort_strings, sorted_seq, str_eq, str_starts_with, string_of, string_of_range, views};

verus! {

broadcast use vstd::string::group_string_axioms;

/// A list of strings as a property value.
pub open spec fn str_list(s: Seq<Seq<char>>) -> ValueView {
    ValueView::List(s.map_values(|x: Seq<char>| ValueView::Str(x)))
}

/// The module kinds of a crate: its crate types, then `test` for a test crate.
pub open spec fn all_types(c: Crate) -> Seq<Seq<char>> {
    if c.test {
        views(c.types@).push("test"@)
    } else {
        views(c.types@)
    }
}

pub open spec fn opt_sfx(cond: bool, sfx: Seq<char>) -> Seq<char> {
    if cond {
        sfx
    } else {
        Seq::empty()
    }
}

/// `_host` for packages not built for the device.
pub open spec fn host_sfx(pc: PackageVariantConfig) -> Seq<char> {
    opt_sfx(!pc.device_supported, "_host"@)
}

/// A main source path as part of a module name: separators become underscores and a trailing
/// `.rs` is dropped.
pub open spec fn sanitized(src: Seq<char>) -> Seq<char> {
    let u = src.map_values(|ch: char| if ch == '/' { '_' } else { ch });
    if has_suffix(u, ".rs"@) {
        u.subrange(0, u.len() - ".rs"@.len())
    } else {
        u
    }
}

pub open spec fn module_type_of(ct: Seq<char>, pc: PackageVariantConfig) -> Seq<char> {
    if ct == "bin"@ {
        "rust_binary"@ + host_sfx(pc)
    } else if ct == "lib"@ || ct == "rlib"@ {
        "rust_library"@ + opt_sfx(pc.force_rlib, "_rlib"@) + host_sfx(pc)
    } else if ct == "dylib"@ {
        "rust_library"@ + host_sfx(pc) + "_dylib"@
    } else if ct == "cdylib"@ {
        "rust_ffi"@ + host_sfx(pc) + "_shared"@
    } else if ct == "staticlib"@ {
        "rust_ffi"@ + host_sfx(pc) + "_static"@
    } else if ct == "proc-macro"@ {
        "rust_proc_macro"@
    } else {
        "rust_test"@ + host_sfx(pc)
    }
}

pub open spec fn stem_of(ct: Seq<char>, c: Crate) -> Seq<char> {
    if ct == "bin"@ {
        c.name@
    } else if ct == "test"@ {
        c.package_name@ + "_test_"@ + sanitized(c.main_src@)
    } else {
        "lib"@ + c.name@
    }
}

pub open spec fn module_name_of(ct: Seq<char>, c: Crate) -> Seq<char> {
    if ct == "dylib"@ {
        stem_of(ct, c) + "_dylib"@
    } else if ct == "cdylib"@ {
        stem_of(ct, c) + "_shared"@
    } else if ct == "staticlib"@ {
        stem_of(ct, c) + "_static"@
    } else {
        stem_of(ct, c)
    }
}

/// The name a module is emitted under, after renames.
pub open spec fn effective_name(ct: Seq<char>, c: Crate, cfg: VariantConfig) -> Seq<char> {
    renamed(pair_views(cfg.module_name_overrides@), module_name_of(ct, c))
}

pub open spec fn blocked(ct: Seq<char>, c: Crate, cfg: VariantConfig) -> bool {
    views(cfg.module_blocklist@).contains(effective_name(ct, c, cfg))
}

pub open spec fn is_hex(ch: char) -> bool {
    ('0' <= ch && ch <= '9') || ('a' <= ch && ch <= 'f')
}

/// The library that an artifact file name `lib<NAME>-<HEX>.<rlib|so|rmeta>` holds, and whether
/// it is a shared object (taken to be a procedural macro).
pub open spec fn lib_of_file(f: Seq<char>) -> Option<(Seq<char>, bool)> {
    match last_index(f, '-') {
        Some(d) => {
            let rest = drop_chars(f, d + 1);
            match last_index(rest, '.') {
                Some(e) => {
                    let hex = rest.subrange(0, e);
                    let ext = drop_chars(rest, e + 1);
                    if has_prefix(f, "lib"@) && d >= "lib"@.len() && hex.len() > 0 && (forall|k: int|
                        0 <= k < hex.len() ==> is_hex(#[trigger] hex[k])) && (ext == "rlib"@ || ext
                        == "so"@ || ext == "rmeta"@) {
                        Some((f.subrange("lib"@.len() as int, d), ext == "so"@))
                    } else {
                        None
                    }
                },
                None => None,
            }
        },
        None => None,
    }
}

/// Why a crate's modules could not be made.
#[derive(Debug)]
pub enum SynthError {
    /// A dependency was given without its artifact.
    MissingExternFile(String),
    /// A dependency's artifact file name does not name a library.
    BadExternFile(String, String),
}

pub enum SynthFailure {
    MissingExternFile(Seq<char>),
    BadExternFile(Seq<char>, Seq<char>),
}

impl View for SynthError {
    type V = SynthFailure;

    open spec fn view(&self) -> SynthFailure {
        match self {
            SynthError::MissingExternFile(n) => SynthFailure::MissingExternFile(n@),
            SynthError::BadExternFile(n, f) => SynthFailure::BadExternFile(n@, f@),
        }
    }
}

/// The Rust libraries and the procedural macros that a crate's dependencies name, in order;
/// the compiler's own `proc_macro` is left out.
pub open spec fn extern_libs(e: Seq<(Seq<char>, Option<Seq<char>>)>) -> Result<(Seq<Seq<char>>, Seq<Seq<char>>), SynthFailure>
    decreases e.len(),
{
    if e.len() == 0 {
        Ok((Seq::empty(), Seq::empty()))
    } else {
        match extern_libs(e.drop_last()) {
            Err(x) => Err(x),
            Ok((rl, pm)) => {
                let n = e.last().0;
                if n == "proc_macro"@ {
                    Ok((rl, pm))
                } else {
                    match e.last().1 {
                        None => Err(SynthFailure::MissingExternFile(n)),
                        Some(f) => match lib_of_file(f) {
                            None => Err(SynthFailure::BadExternFile(n, f)),
                            Some((lib, so)) => if so {
                                Ok((rl, pm.push(lib)))
                            } else {
                                Ok((rl.push(lib), pm))
                            },
                        },
                    }
                }
            },
        }
    }
}

/// Dependency module names: `lib` prefixed, renamed, and those on the block list dropped.
pub open spec fn dep_names(libs: Seq<Seq<char>>, o: Seq<(Seq<char>, Seq<char>)>, block: Seq<Seq<char>>) -> Seq<Seq<char>>
    decreases libs.len(),
{
    if libs.len() == 0 {
        Seq::empty()
    } else {
        let prev = dep_names(libs.drop_last(), o, block);
        let m = renamed(o, "lib"@ + libs.last());
        if block.contains(m) {
            prev
        } else {
            prev.push(m)
        }
    }
}

/// The processed form of a dependency list, as the module holds it.
pub open spec fn deps_value(libs: Seq<Seq<char>>, cfg: VariantConfig, pc: PackageVariantConfig) -> ValueView {
    str_list(sorted_seq(dep_names(libs, pair_views(cfg.module_name_overrides@), views(pc.dep_blocklist@))))
}

pub open spec fn is_lib_like(ct: Seq<char>) -> bool {
    ct == "lib"@ || ct == "rlib"@ || ct == "dylib"@ || ct == "staticlib"@ || ct == "cdylib"@
}

/// The code-generation flags of a module: the lint cap, if any, then the kept options.
pub open spec fn flags_of(c: Crate) -> Seq<Seq<char>> {
    (if c.cap_lints@.len() > 0 { seq![c.cap_lints@] } else { Seq::empty() }) + views(c.codegens@)
}

/// The naming properties of a module, and those that every module has.
pub open spec fn props_head(ct: Seq<char>, c: Crate, cfg: VariantConfig, pc: PackageVariantConfig) -> Map<Seq<char>, ValueView> {
    let eff = effective_name(ct, c, cfg);
    let stem = stem_of(ct, c);
    let mt = module_type_of(ct, pc);
    let m0 = Map::<Seq<char>, ValueView>::empty().insert("name"@, ValueView::Str(eff));
    let m1 = if stem != eff { m0.insert("stem"@, ValueView::Str(stem)) } else { m0 };
    let m2 = match cfg.global_defaults {
        Some(d) => m1.insert("defaults"@, str_list(seq![d@])),
        None => m1,
    };
    let m3 = if pc.host_supported && pc.device_supported && mt != "rust_proc_macro"@ {
        m2.insert("host_supported"@, ValueView::Bool(true))
    } else {
        m2
    };
    let m4 = m3.insert("crate_name"@, ValueView::Str(c.name@)).insert("cargo_env_compat"@, ValueView::Bool(true));
    match c.version {
        Some(v) => m4.insert("cargo_pkg_version"@, ValueView::Str(v@)),
        None => m4,
    }
}

/// `m` with the properties of a test module, for a test crate.
pub open spec fn props_test(m: Map<Seq<char>, ValueView>, c: Crate, pc: PackageVariantConfig) -> Map<Seq<char>, ValueView> {
    if c.test {
        let t = m.insert("test_suites"@, str_list(seq!["general-tests"@])).insert(
            "auto_gen_config"@,
            ValueView::Bool(true),
        );
        if pc.host_supported {
            t.insert(
                "test_options"@,
                ValueView::Object(
                    Map::empty().insert("unit_test"@, ValueView::Bool(!pc.no_presubmit)),
                    None,
                ),
            )
        } else {
            t
        }
    } else {
        m
    }
}

/// `m` with the sources, edition, features, cfgs and flags.
pub open spec fn props_body(m: Map<Seq<char>, ValueView>, c: Crate, extra: Seq<Seq<char>>) -> Map<Seq<char>, ValueView> {
    let m7 = m.insert("srcs"@, str_list(seq![c.main_src@] + extra)).insert(
        "edition"@,
        ValueView::Str(edition_text(c.edition)),
    );
    let m8 = if c.features@.len() > 0 { m7.insert("features"@, str_list(views(c.features@))) } else { m7 };
    let m9 = if c.cfgs@.len() > 0 { m8.insert("cfgs"@, str_list(views(c.cfgs@))) } else { m8 };
    if flags_of(c).len() > 0 { m9.insert("flags"@, str_list(flags_of(c))) } else { m9 }
}

/// `m` with the dependency lists and, for libraries, `apex_available`.
pub open spec fn props_deps(
    m: Map<Seq<char>, ValueView>,
    ct: Seq<char>,
    c: Crate,
    cfg: VariantConfig,
    pc: PackageVariantConfig,
    libs: (Seq<Seq<char>>, Seq<Seq<char>>),
) -> Map<Seq<char>, ValueView> {
    let m11 = if libs.0.len() > 0 { m.insert("rustlibs"@, deps_value(libs.0, cfg, pc)) } else { m };
    let m12 = if libs.1.len() > 0 { m11.insert("proc_macros"@, deps_value(libs.1, cfg, pc)) } else { m11 };
    let m13 = if c.static_libs@.len() > 0 {
        m12.insert("static_libs"@, deps_value(views(c.static_libs@), cfg, pc))
    } else {
        m12
    };
    let m14 = if c.shared_libs@.len() > 0 {
        m13.insert("shared_libs"@, deps_value(views(c.shared_libs@), cfg, pc))
    } else {
        m13
    };
    if cfg.apex_available@.len() > 0 && is_lib_like(ct) {
        m14.insert("apex_available"@, str_list(views(cfg.apex_available@)))
    } else {
        m14
    }
}

/// The properties of the module of kind `ct`.
pub open spec fn module_props(
    ct: Seq<char>,
    c: Crate,
    cfg: VariantConfig,
    pc: PackageVariantConfig,
    extra: Seq<Seq<char>>,
    libs: (Seq<Seq<char>>, Seq<Seq<char>>),
) -> Map<Seq<char>, ValueView> {
    props_deps(props_body(props_test(props_head(ct, c, cfg, pc), c, pc), c, extra), ct, c, cfg, pc, libs)
}

/// A module as a model: its type, its properties and its raw tail.
pub type ModuleView = (Seq<char>, Map<Seq<char>, ValueView>, Option<Seq<char>>);

pub open spec fn module_view(m: BpModule) -> ModuleView {
    (m.module_type@, m.props.view_map(), opt_view(m.props.raw_block))
}

/// The modules for the first `n` module kinds of `ts`, leaving out blocked ones.
pub open spec fn modules_upto(
    ts: Seq<Seq<char>>,
    n: int,
    c: Crate,
    cfg: VariantConfig,
    pc: PackageVariantConfig,
    extra: Seq<Seq<char>>,
    block: Option<Seq<char>>,
    libs: (Seq<Seq<char>>, Seq<Seq<char>>),
) -> Seq<ModuleView>
    decreases n,
{
    if n <= 0 {
        Seq::empty()
    } else {
        let prev = modules_upto(ts, n - 1, c, cfg, pc, extra, block, libs);
        let ct = ts[n - 1];
        if blocked(ct, c, cfg) {
            prev
        } else {
            prev.push((module_type_of(ct, pc), module_props(ct, c, cfg, pc, extra, libs), block))
        }
    }
}

/// The modules of a crate: none for a build script; otherwise one per module kind that is not
/// blocked, which needs the crate's dependencies to name libraries.
pub open spec fn crate_modules(
    c: Crate,
    cfg: VariantConfig,
    pc: PackageVariantConfig,
    extra: Seq<Seq<char>>,
    block: Option<Seq<char>>,
) -> Result<Seq<ModuleView>, SynthFailure> {
    let ts = all_types(c);
    if has_prefix(c.name@, "build_script_"@) {
        Ok(Seq::empty())
    } else if forall|k: int| 0 <= k < ts.len() ==> blocked(#[trigger] ts[k], c, cfg) {
        Ok(Seq::empty())
    } else {
        match extern_libs(extern_views(c.externs@)) {
            Err(e) => Err(e),
            Ok(libs) => Ok(modules_upto(ts, ts.len() as int, c, cfg, pc, extra, block, libs)),
        }
    }
}


/// Copies a list of strings.
pub fn clone_strings(v: &Vec<String>) -> (r: Vec<String>)
    ensures
        views(r@) == views(v@),
{
    let mut r: Vec<String> = Vec::new();
    let mut i: usize = 0;
    while i < v.len()
        invariant
            i <= v@.len(),
            views(r@) == views(v@).take(i as int),
        decreases v.len() - i,
    {
        let x = v[i].clone();
        let ghost prev = views(r@);
        r.push(x);
        assert(views(r@) =~= prev.push(v@[i as int]@));
        assert(views(v@).take(i + 1) =~= views(v@).take(i as int).push(v@[i as int]@));
        i = i + 1;
        assert(views(r@) =~= views(v@).take(i as int));
    }
    assert(views(v@).take(v@.len() as int) =~= views(v@));
    r
}

/// A list of strings as a property value.
pub fn str_list_value(v: &Vec<String>) -> (r: BpValue)
    ensures
        value_view(r) == str_list(views(v@)),
{
    let mut items: Vec<BpValue> = Vec::new();
    let mut i: usize = 0;
    while i < v.len()
        invariant
            i <= v@.len(),
            items@.len() == i,
            items_view(items@) == views(v@).take(i as int).map_values(|x: Seq<char>| ValueView::Str(x)),
        decreases v.len() - i,
    {
        let ghost prev = items@;
        let x = v[i].clone();
        let ghost xv = x@;
        assert(xv == views(v@)[i as int]);
        items.push(BpValue::Str(x));
        assert(value_view(items@[i as int]) == ValueView::Str(xv));
        assert(items@.subrange(0, items@.len() - 1) =~= prev);
        assert(views(v@).take(i + 1) =~= views(v@).take(i as int).push(v@[i as int]@));
        i = i + 1;
        assert(items_view(items@) =~= views(v@).take(i as int).map_values(|x: Seq<char>| ValueView::Str(x)));
    }
    assert(views(v@).take(v@.len() as int) =~= views(v@));
    BpValue::List(items)
}

/// Appends `sfx` to `s` when `cond` holds.
fn with_suffix(s: String, cond: bool, sfx: &str) -> (r: String)
    ensures
        r@ == s@ + opt_sfx(cond, sfx@),
{
    if cond {
        s.concat(sfx)
    } else {
        assert(s@ + opt_sfx(cond, sfx@) =~= s@);
        s
    }
}

pub fn module_type_exec(ct: &str, pc: &PackageVariantConfig) -> (r: String)
    ensures
        r@ == module_type_of(ct@, *pc),
{
    let host = !pc.device_supported;
    if str_eq(ct, "bin") {
        with_suffix("rust_binary".to_string(), host, "_host")
    } else if str_eq(ct, "lib") || str_eq(ct, "rlib") {
        let s = with_suffix("rust_library".to_string(), pc.force_rlib, "_rlib");
        with_suffix(s, host, "_host")
    } else if str_eq(ct, "dylib") {
        with_suffix("rust_library".to_string(), host, "_host").concat("_dylib")
    } else if str_eq(ct, "cdylib") {
        with_suffix("rust_ffi".to_string(), host, "_host").concat("_shared")
    } else if str_eq(ct, "staticlib") {
        with_suffix("rust_ffi".to_string(), host, "_host").concat("_static")
    } else if str_eq(ct, "proc-macro") {
        "rust_proc_macro".to_string()
    } else {
        with_suffix("rust_test".to_string(), host, "_host")
    }
}

pub fn sanitize(src: &str) -> (r: String)
    ensures
        r@ == sanitized(src@),
{
    let cs = chars_of(src);
    let mut u: Vec<char> = Vec::new();
    let mut i: usize = 0;
    while i < cs.len()
        invariant
            i <= cs@.len(),
            u@ == cs@.take(i as int).map_values(|ch: char| if ch == '/' { '_' } else { ch }),
        decreases cs.len() - i,
    {
        let ch = cs[i];
        u.push(if ch == '/' { '_' } else { ch });
        i = i + 1;
        assert(u@ =~= cs@.take(i as int).map_values(|ch: char| if ch == '/' { '_' } else { ch }));
    }
    assert(cs@.take(cs@.len() as int) =~= cs@);
    if crate::text::ends_with(&u, ".rs") {
        let n = chars_of(".rs").len();
        string_of_range(&u, 0, u.len() - n)
    } else {
        string_of(&u)
    }
}

pub fn stem_exec(ct: &str, c: &Crate) -> (r: String)
    ensures
        r@ == stem_of(ct@, *c),
{
    if str_eq(ct, "bin") {
        c.name.clone()
    } else if str_eq(ct, "test") {
        let s = c.package_name.clone().concat("_test_");
        let t = sanitize(c.main_src.as_str());
        s.concat(t.as_str())
    } else {
        "lib".to_string().concat(c.name.as_str())
    }
}

pub fn module_name_exec(ct: &str, c: &Crate) -> (r: String)
    ensures
        r@ == module_name_of(ct@, *c),
{
    let stem = stem_exec(ct, c);
    if str_eq(ct, "dylib") {
        stem.concat("_dylib")
    } else if str_eq(ct, "cdylib") {
        stem.concat("_shared")
    } else if str_eq(ct, "staticlib") {
        stem.concat("_static")
    } else {
        stem
    }
}

pub fn is_hex_exec(ch: char) -> (r: bool)
    ensures
        r == is_hex(ch),
{
    ('0' <= ch && ch <= '9') || ('a' <= ch && ch <= 'f')
}

/// The library that an artifact file name holds; see `lib_of_file`.
pub fn lib_of_file_exec(f: &str) -> (r: Option<(String, bool)>)
    ensures
        match lib_of_file(f@) {
            Some((lib, so)) => r matches Some(x) && x.0@ == lib && x.1 == so,
            None => r is None,
        },
{
    let cs = chars_of(f);
    let d = match find_last(&cs, '-') {
        Some(d) => d,
        None => {
            return None;
        },
    };
    let rest = string_of_range(&cs, d + 1, cs.len());
    let rc = chars_of(rest.as_str());
    let e = match find_last(&rc, '.') {
        Some(e) => e,
        None => {
            return None;
        },
    };
    let ghost hex = rc@.subrange(0, e as int);
    let mut all_hex = e > 0;
    let mut k: usize = 0;
    while k < e
        invariant
            k <= e < rc@.len(),
            hex == rc@.subrange(0, e as int),
            all_hex == (e > 0 && forall|m: int| 0 <= m < k ==> is_hex(#[trigger] hex[m])),
        decreases e - k,
    {
        assert(hex[k as int] == rc@[k as int]);
        if !is_hex_exec(rc[k]) {
            all_hex = false;
        }
        k = k + 1;
    }
    let ext = string_of_range(&rc, e + 1, rc.len());
    let lib_len = chars_of("lib").len();
    let ok = crate::text::starts_with(&cs, "lib") && d >= lib_len && all_hex && (str_eq(ext.as_str(), "rlib")
        || str_eq(ext.as_str(), "so") || str_eq(ext.as_str(), "rmeta"));
    if ok {
        Some((string_of_range(&cs, lib_len, d), str_eq(ext.as_str(), "so")))
    } else {
        None
    }
}

proof fn lemma_extern_libs_err_persists(e: Seq<(Seq<char>, Option<Seq<char>>)>, i: int, x: SynthFailure)
    requires
        0 <= i <= e.len(),
        extern_libs(e.take(i)) == Err::<(Seq<Seq<char>>, Seq<Seq<char>>), SynthFailure>(x),
    ensures
        extern_libs(e) == Err::<(Seq<Seq<char>>, Seq<Seq<char>>), SynthFailure>(x),
    decreases e.len() - i,
{
    if i < e.len() {
        assert(e.take(i + 1).drop_last() =~= e.take(i));
        lemma_extern_libs_err_persists(e, i + 1, x);
    } else {
        assert(e.take(i) =~= e);
    }
}

/// The libraries and procedural macros that dependencies name; see `extern_libs`.
pub fn extern_libs_exec(externs: &Vec<(String, Option<String>)>) -> (r: Result<(Vec<String>, Vec<String>), SynthError>)
    ensures
        match extern_libs(extern_views(externs@)) {
            Ok((rl, pm)) => r matches Ok(x) && views(x.0@) == rl && views(x.1@) == pm,
            Err(e) => r matches Err(x) && x@ == e,
        },
{
    let ghost ev = extern_views(externs@);
    let mut rl: Vec<String> = Vec::new();
    let mut pm: Vec<String> = Vec::new();
    let mut i: usize = 0;
    assert(ev.take(0) =~= Seq::<(Seq<char>, Option<Seq<char>>)>::empty());
    assert(views(rl@) =~= Seq::<Seq<char>>::empty());
    assert(views(pm@) =~= Seq::<Seq<char>>::empty());
    while i < externs.len()
        invariant
            i <= externs@.len(),
            ev == extern_views(externs@),
            extern_libs(ev.take(i as int)) == Ok::<(Seq<Seq<char>>, Seq<Seq<char>>), SynthFailure>((views(rl@), views(pm@))),
        decreases externs.len() - i,
    {
        assert(ev.take(i + 1).drop_last() =~= ev.take(i as int));
        assert(ev.take(i + 1).last() == ev[i as int]);
        assert(ev[i as int] == (externs@[i as int].0@, opt_view(externs@[i as int].1)));
        let name = &externs[i].0;
        if !str_eq(name.as_str(), "proc_macro") {
            match &externs[i].1 {
                None => {
                    proof {
                        lemma_extern_libs_err_persists(ev, i + 1, SynthFailure::MissingExternFile(name@));
                    }
                    return Err(SynthError::MissingExternFile(name.clone()));
                },
                Some(f) => match lib_of_file_exec(f.as_str()) {
                    None => {
                        proof {
                            lemma_extern_libs_err_persists(ev, i + 1, SynthFailure::BadExternFile(name@, f@));
                        }
                        return Err(SynthError::BadExternFile(name.clone(), f.clone()));
                    },
                    Some((lib, so)) => {
                        if so {
                            let ghost prev = views(pm@);
                            pm.push(lib);
                            assert(views(pm@) =~= prev.push(lib@));
                        } else {
                            let ghost prev = views(rl@);
                            rl.push(lib);
                            assert(views(rl@) =~= prev.push(lib@));
                        }
                    },
                },
            }
        }
        i = i + 1;
    }
    assert(ev.take(i as int) =~= ev);
    Ok((rl, pm))
}

/// Dependency module names, processed and sorted; see `deps_value`.
pub fn process_lib_deps(libs: &Vec<String>, cfg: &VariantConfig, pc: &PackageVariantConfig) -> (r: Vec<String>)
    ensures
        views(r@) == sorted_seq(dep_names(views(libs@), pair_views(cfg.module_name_overrides@), views(pc.dep_blocklist@))),
{
    let ghost lv = views(libs@);
    let ghost o = pair_views(cfg.module_name_overrides@);
    let ghost block = views(pc.dep_blocklist@);
    let mut result: Vec<String> = Vec::new();
    let mut i: usize = 0;
    assert(views(result@) =~= dep_names(lv.take(0), o, block));
    while i < libs.len()
        invariant
            i <= libs@.len(),
            lv == views(libs@),
            o == pair_views(cfg.module_name_overrides@),
            block == views(pc.dep_blocklist@),
            views(result@) == dep_names(lv.take(i as int), o, block),
        decreases libs.len() - i,
    {
        assert(lv.take(i + 1).drop_last() =~= lv.take(i as int));
        assert(lv.take(i + 1).last() == libs@[i as int]@);
        let name = "lib".to_string().concat(libs[i].as_str());
        let m = rename(&cfg.module_name_overrides, name.as_str());
        if !contains_str(&pc.dep_blocklist, m.as_str()) {
            let ghost prev = views(result@);
            result.push(m);
            assert(views(result@) =~= prev.push(m@));
        }
        i = i + 1;
    }
    assert(lv.take(i as int) =~= lv);
    sort_strings(result)
}


/// Joins the main source and the extra sources.
fn srcs_list(main_src: &String, extra: &Vec<String>) -> (r: Vec<String>)
    ensures
        views(r@) == seq![main_src@] + views(extra@),
{
    let mut r: Vec<String> = Vec::new();
    r.push(main_src.clone());
    let mut i: usize = 0;
    while i < extra.len()
        invariant
            i <= extra@.len(),
            views(r@) == seq![main_src@] + views(extra@).take(i as int),
        decreases extra.len() - i,
    {
        let x = extra[i].clone();
        let ghost prev = views(r@);
        r.push(x);
        assert(views(r@) =~= prev.push(extra@[i as int]@));
        assert(views(extra@).take(i + 1) =~= views(extra@).take(i as int).push(extra@[i as int]@));
        i = i + 1;
        assert(views(r@) =~= seq![main_src@] + views(extra@).take(i as int));
    }
    assert(views(extra@).take(extra@.len() as int) =~= views(extra@));
    r
}

/// The flags of a module; see `flags_of`.
fn flags_exec(c: &Crate) -> (r: Vec<String>)
    ensures
        views(r@) == flags_of(*c),
{
    let mut r: Vec<String> = Vec::new();
    if !c.cap_lints.as_str().is_empty() {
        r.push(c.cap_lints.clone());
    }
    let ghost head = views(r@);
    assert(head =~= (if c.cap_lints@.len() > 0 { seq![c.cap_lints@] } else { Seq::empty() }));
    let mut i: usize = 0;
    while i < c.codegens.len()
        invariant
            i <= c.codegens@.len(),
            views(r@) == head + views(c.codegens@).take(i as int),
        decreases c.codegens.len() - i,
    {
        let x = c.codegens[i].clone();
        let ghost prev = views(r@);
        r.push(x);
        assert(views(r@) =~= prev.push(c.codegens@[i as int]@));
        assert(views(c.codegens@).take(i + 1) =~= views(c.codegens@).take(i as int).push(c.codegens@[i as int]@));
        i = i + 1;
        assert(views(r@) =~= head + views(c.codegens@).take(i as int));
    }
    assert(views(c.codegens@).take(c.codegens@.len() as int) =~= views(c.codegens@));
    r
}

fn set_head(p: &mut BpProperties, ct: &str, c: &Crate, cfg: &VariantConfig, pc: &PackageVariantConfig)
    requires
        old(p).wf(),
        old(p).view_map() == Map::<Seq<char>, ValueView>::empty(),
    ensures
        final(p).wf(),
        final(p).view_map() == props_head(ct@, *c, *cfg, *pc),
        final(p).raw_block == old(p).raw_block,
{
    let module_type = module_type_exec(ct, pc);
    let module_name = module_name_exec(ct, c);
    let eff = rename(&cfg.module_name_overrides, module_name.as_str());
    let stem = stem_exec(ct, c);
    p.set("name", BpValue::Str(eff.clone()));
    if !str_eq(stem.as_str(), eff.as_str()) {
        p.set("stem", BpValue::Str(stem));
    }
    match &cfg.global_defaults {
        Some(d) => {
            let dv = vec![d.clone()];
            assert(views(dv@) =~= seq![d@]);
            p.set("defaults", str_list_value(&dv));
        },
        None => {},
    }
    if pc.host_supported && pc.device_supported && !str_eq(module_type.as_str(), "rust_proc_macro") {
        p.set("host_supported", BpValue::Bool(true));
    }
    p.set("crate_name", BpValue::Str(c.name.clone()));
    p.set("cargo_env_compat", BpValue::Bool(true));
    match &c.version {
        Some(v) => {
            p.set("cargo_pkg_version", BpValue::Str(v.clone()));
        },
        None => {},
    }
}

fn set_test(p: &mut BpProperties, c: &Crate, pc: &PackageVariantConfig)
    requires
        old(p).wf(),
    ensures
        final(p).wf(),
        final(p).view_map() == props_test(old(p).view_map(), *c, *pc),
        final(p).raw_block == old(p).raw_block,
{
    if c.test {
        let suites = vec!["general-tests".to_string()];
        assert(views(suites@) =~= seq!["general-tests"@]);
        p.set("test_suites", str_list_value(&suites));
        p.set("auto_gen_config", BpValue::Bool(true));
        if pc.host_supported {
            let mut opts = BpProperties::new();
            opts.set("unit_test", BpValue::Bool(!pc.no_presubmit));
            p.set("test_options", BpValue::Object(opts));
        }
    }
}

fn set_body(p: &mut BpProperties, c: &Crate, extra: &Vec<String>)
    requires
        old(p).wf(),
    ensures
        final(p).wf(),
        final(p).view_map() == props_body(old(p).view_map(), *c, views(extra@)),
        final(p).raw_block == old(p).raw_block,
{
    let srcs = srcs_list(&c.main_src, extra);
    p.set("srcs", str_list_value(&srcs));
    p.set("edition", BpValue::Str(c.edition.to_text()));
    if c.features.len() > 0 {
        p.set("features", str_list_value(&c.features));
    }
    if c.cfgs.len() > 0 {
        p.set("cfgs", str_list_value(&c.cfgs));
    }
    let flags = flags_exec(c);
    if flags.len() > 0 {
        p.set("flags", str_list_value(&flags));
    }
}

fn set_deps(
    p: &mut BpProperties,
    ct: &str,
    c: &Crate,
    cfg: &VariantConfig,
    pc: &PackageVariantConfig,
    libs: &(Vec<String>, Vec<String>),
)
    requires
        old(p).wf(),
    ensures
        final(p).wf(),
        final(p).view_map() == props_deps(old(p).view_map(), ct@, *c, *cfg, *pc, (views(libs.0@), views(libs.1@))),
        final(p).raw_block == old(p).raw_block,
{
    if libs.0.len() > 0 {
        let deps = process_lib_deps(&libs.0, cfg, pc);
        p.set("rustlibs", str_list_value(&deps));
    }
    if libs.1.len() > 0 {
        let deps = process_lib_deps(&libs.1, cfg, pc);
        p.set("proc_macros", str_list_value(&deps));
    }
    if c.static_libs.len() > 0 {
        let deps = process_lib_deps(&c.static_libs, cfg, pc);
        p.set("static_libs", str_list_value(&deps));
    }
    if c.shared_libs.len() > 0 {
        let deps = process_lib_deps(&c.shared_libs, cfg, pc);
        p.set("shared_libs", str_list_value(&deps));
    }
    let lib_like = str_eq(ct, "lib") || str_eq(ct, "rlib") || str_eq(ct, "dylib") || str_eq(ct, "staticlib")
        || str_eq(ct, "cdylib");
    if cfg.apex_available.len() > 0 && lib_like {
        p.set("apex_available", str_list_value(&cfg.apex_available));
    }
}

/// The module of kind `ct` of crate `c`.
pub fn build_module(
    ct: &str,
    c: &Crate,
    cfg: &VariantConfig,
    pc: &PackageVariantConfig,
    extra: &Vec<String>,
    block: &Option<String>,
    libs: &(Vec<String>, Vec<String>),
) -> (r: BpModule)
    ensures
        r.props.wf(),
        module_view(r) == (
            module_type_of(ct@, *pc),
            module_props(ct@, *c, *cfg, *pc, views(extra@), (views(libs.0@), views(libs.1@))),
            opt_view(*block),
        ),
{
    let mut m = BpModule::new(module_type_exec(ct, pc));
    set_head(&mut m.props, ct, c, cfg, pc);
    set_test(&mut m.props, c, pc);
    set_body(&mut m.props, c, extra);
    set_deps(&mut m.props, ct, c, cfg, pc, libs);
    m.props.raw_block = match block {
        Some(b) => Some(b.clone()),
        None => None,
    };
    m
}


/// The dependencies' libraries where they all name one; empty lists otherwise.
pub open spec fn libs_or_empty(c: Crate) -> (Seq<Seq<char>>, Seq<Seq<char>>) {
    match extern_libs(extern_views(c.externs@)) {
        Ok(l) => l,
        Err(_) => (Seq::empty(), Seq::empty()),
    }
}

pub open spec fn module_views(v: Seq<BpModule>) -> Seq<ModuleView> {
    v.map_values(|m: BpModule| module_view(m))
}

proof fn lemma_modules_all_blocked(
    ts: Seq<Seq<char>>,
    n: int,
    c: Crate,
    cfg: VariantConfig,
    pc: PackageVariantConfig,
    extra: Seq<Seq<char>>,
    block: Option<Seq<char>>,
    libs: (Seq<Seq<char>>, Seq<Seq<char>>),
)
    requires
        0 <= n <= ts.len(),
        forall|k: int| 0 <= k < n ==> blocked(#[trigger] ts[k], c, cfg),
    ensures
        modules_upto(ts, n, c, cfg, pc, extra, block, libs) == Seq::<ModuleView>::empty(),
    decreases n,
{
    if n > 0 {
        lemma_modules_all_blocked(ts, n - 1, c, cfg, pc, extra, block, libs);
    }
}

impl Crate {
    /// The modules of this crate; see `crate_modules`. None for a build script.
    pub fn to_bp_modules(
        &self,
        cfg: &VariantConfig,
        package_cfg: &PackageVariantConfig,
        extra_srcs: &Vec<String>,
        module_block: &Option<String>,
    ) -> (r: Result<Vec<BpModule>, SynthError>)
        requires
            self.wf(),
        ensures
            match crate_modules(*self, *cfg, *package_cfg, views(extra_srcs@), opt_view(*module_block)) {
                Ok(ms) => r matches Ok(v) && module_views(v@) == ms && forall|i: int|
                    0 <= i < v@.len() ==> (#[trigger] v@[i]).props.wf(),
                Err(e) => r matches Err(x) && x@ == e,
            },
            has_prefix(self.name@, "build_script_"@) ==> (r matches Ok(v) && v@.len() == 0),
    {
        let mut out: Vec<BpModule> = Vec::new();
        if str_starts_with(self.name.as_str(), "build_script_") {
            return Ok(out);
        }
        let mut types = clone_strings(&self.types);
        if self.test {
            let ghost prev = views(types@);
            types.push("test".to_string());
            assert(views(types@) =~= prev.push("test"@));
        }
        let ghost ts = all_types(*self);
        let ghost gl = libs_or_empty(*self);
        let ghost extra = views(extra_srcs@);
        let ghost blk = opt_view(*module_block);
        let mut libs: Option<(Vec<String>, Vec<String>)> = None;
        let mut i: usize = 0;
        while i < types.len()
            invariant
                ts == views(types@),
                ts == all_types(*self),
                gl == libs_or_empty(*self),
                extra == views(extra_srcs@),
                blk == opt_view(*module_block),
                !has_prefix(self.name@, "build_script_"@),
                i <= types@.len(),
                libs is None ==> forall|k: int| 0 <= k < i ==> blocked(#[trigger] ts[k], *self, *cfg),
                libs matches Some(l) ==> extern_libs(extern_views(self.externs@)) == Ok::<(Seq<Seq<char>>, Seq<Seq<char>>), SynthFailure>((views(l.0@), views(l.1@))),
                libs is Some ==> exists|k: int| 0 <= k < i && !blocked(#[trigger] ts[k], *self, *cfg),
                module_views(out@) == modules_upto(ts, i as int, *self, *cfg, *package_cfg, extra, blk, gl),
                forall|k: int| 0 <= k < out@.len() ==> (#[trigger] out@[k]).props.wf(),
            decreases types.len() - i,
        {
            let ct = types[i].as_str();
            assert(ct@ == ts[i as int]);
            let module_name = module_name_exec(ct, self);
            let eff = rename(&cfg.module_name_overrides, module_name.as_str());
            if contains_str(&cfg.module_blocklist, eff.as_str()) {
                assert(blocked(ts[i as int], *self, *cfg));
                i = i + 1;
                continue;
            }
            if libs.is_none() {
                match extern_libs_exec(&self.externs) {
                    Err(e) => {
                        assert(!blocked(ts[i as int], *self, *cfg));
                        return Err(e);
                    },
                    Ok(l) => {
                        proof {
                            lemma_modules_all_blocked(ts, i as int, *self, *cfg, *package_cfg, extra, blk, gl);
                        }
                        libs = Some(l);
                    },
                }
            }
            let l = match &libs {
                Some(l) => l,
                None => {
                    return Err(SynthError::MissingExternFile(String::new()));
                },
            };
            let m = build_module(ct, self, cfg, package_cfg, extra_srcs, module_block, l);
            let ghost prev = module_views(out@);
            out.push(m);
            assert(module_views(out@) =~= prev.push(module_view(m)));
            i = i + 1;
        }
        proof {
            if libs is None {
                lemma_modules_all_blocked(ts, ts.len() as int, *self, *cfg, *package_cfg, extra, blk, gl);
            } else {
                let k = choose|k: int| 0 <= k < i && !blocked(#[trigger] ts[k], *self, *cfg);
                assert(!(forall|k: int| 0 <= k < ts.len() ==> blocked(#[trigger] ts[k], *self, *cfg)));
            }
        }
        Ok(out)
    }
}


/// A renamed name is the name itself or the target of a rename.
pub proof fn lemma_renamed_source(o: Seq<(Seq<char>, Seq<char>)>, k: Seq<char>)
    ensures
        renamed(o, k) == k || exists|j: int| 0 <= j < o.len() && renamed(o, k) == (#[trigger] o[j]).1,
    decreases o.len(),
{
    if o.len() > 0 && o[0].0 != k {
        lemma_renamed_source(o.drop_first(), k);
        if renamed(o.drop_first(), k) != k {
            let j = choose|j: int| 0 <= j < o.drop_first().len() && renamed(o.drop_first(), k) == (#[trigger] o.drop_first()[j]).1;
            assert(o[j + 1] == o.drop_first()[j]);
        }
    } else if o.len() > 0 {
        assert(o[0] == o[0]);
    }
}

proof fn lemma_dep_names_members(libs: Seq<Seq<char>>, o: Seq<(Seq<char>, Seq<char>)>, block: Seq<Seq<char>>, x: Seq<char>)
    requires
        dep_names(libs, o, block).contains(x),
    ensures
        !block.contains(x),
        exists|i: int| 0 <= i < libs.len() && x == renamed(o, "lib"@ + #[trigger] libs[i]),
    decreases libs.len(),
{
    let prev = dep_names(libs.drop_last(), o, block);
    let m = renamed(o, "lib"@ + libs.last());
    if prev.contains(x) {
        lemma_dep_names_members(libs.drop_last(), o, block, x);
        let i = choose|i: int| 0 <= i < libs.drop_last().len() && x == renamed(o, "lib"@ + #[trigger] libs.drop_last()[i]);
        assert(libs[i] == libs.drop_last()[i]);
    } else {
        assert(x == m);
        assert(libs[libs.len() - 1] == libs.last());
    }
}

/// Dependency lists, as modules hold them, are sorted, hold no name of the package's block
/// list, and each entry is the rename of `lib` followed by one of the libraries; so where every
/// rename target begins with `lib`, every entry does.
pub proof fn lemma_dependency_processing(libs: Seq<Seq<char>>, o: Seq<(Seq<char>, Seq<char>)>, block: Seq<Seq<char>>)
    ensures
        crate::text::sorted_strings(sorted_seq(dep_names(libs, o, block))),
        forall|x: Seq<char>| #[trigger] sorted_seq(dep_names(libs, o, block)).contains(x) ==> !block.contains(x)
            && exists|i: int| 0 <= i < libs.len() && x == renamed(o, "lib"@ + #[trigger] libs[i]),
        (forall|j: int| 0 <= j < o.len() ==> has_prefix(#[trigger] o[j].1, "lib"@)) ==> forall|x: Seq<char>|
            #[trigger] sorted_seq(dep_names(libs, o, block)).contains(x) ==> has_prefix(x, "lib"@),
{
    let d = dep_names(libs, o, block);
    crate::text::lemma_lex_total_ordering();
    d.lemma_sort_by_ensures(crate::text::lex_le_rel());
    let sd = sorted_seq(d);
    assert forall|i: int, j: int| 0 <= i < j < sd.len() implies crate::text::lex_le(#[trigger] sd[i], #[trigger] sd[j]) by {
        assert(crate::text::lex_le_rel()(sd[i], sd[j]));
    }
    assert forall|x: Seq<char>| #[trigger] sd.contains(x) implies !block.contains(x)
        && exists|i: int| 0 <= i < libs.len() && x == renamed(o, "lib"@ + #[trigger] libs[i]) by {
        lemma_dep_names_members(libs, o, block, x);
    }
    if forall|j: int| 0 <= j < o.len() ==> has_prefix(#[trigger] o[j].1, "lib"@) {
        assert forall|x: Seq<char>| #[trigger] sd.contains(x) implies has_prefix(x, "lib"@) by {
            lemma_dep_names_members(libs, o, block, x);
            let i = choose|i: int| 0 <= i < libs.len() && x == renamed(o, "lib"@ + #[trigger] libs[i]);
            lemma_renamed_source(o, "lib"@ + libs[i]);
            if x == "lib"@ + libs[i] {
                assert(x.subrange(0, "lib"@.len() as int) =~= "lib"@);
            }
        }
    }
}


proof fn lemma_type_not_test(t: Seq<char>)
    requires
        crate::decode::is_crate_type(t),
    ensures
        t != "test"@,
{
    reveal_strlit("test");
    reveal_strlit("bin");
    reveal_strlit("lib");
    reveal_strlit("rlib");
    reveal_strlit("dylib");
    reveal_strlit("cdylib");
    reveal_strlit("staticlib");
    reveal_strlit("proc-macro");
    if t == "test"@ {
        assert(t.len() == 4);
        assert(t[0] == 't');
        if t == "rlib"@ {
            assert(t[0] == 'r');
        }
    }
}

/// A crate whose name begins with `build_script_` has no modules.
pub proof fn lemma_build_scripts_have_no_modules(
    c: Crate,
    cfg: VariantConfig,
    pc: PackageVariantConfig,
    extra: Seq<Seq<char>>,
    block: Option<Seq<char>>,
)
    requires
        has_prefix(c.name@, "build_script_"@),
    ensures
        crate_modules(c, cfg, pc, extra, block) == Ok::<Seq<ModuleView>, SynthFailure>(Seq::empty()),
{
}

/// The crate types whose module is named `lib` followed by the crate's name.
pub open spec fn lib_named(t: Seq<char>) -> bool {
    t == "lib"@ || t == "rlib"@ || t == "proc-macro"@
}

/// Within one crate, two different crate types name different modules, but for `lib`,
/// `rlib` and `proc-macro`, which all name `lib` followed by the crate's name.
pub proof fn lemma_module_names_distinct(c: Crate, a: Seq<char>, b: Seq<char>)
    requires
        crate::decode::is_crate_type(a),
        crate::decode::is_crate_type(b),
        a != b,
        !(lib_named(a) && lib_named(b)),
    ensures
        module_name_of(a, c) != module_name_of(b, c),
{
    reveal_strlit("bin");
    reveal_strlit("lib");
    reveal_strlit("rlib");
    reveal_strlit("dylib");
    reveal_strlit("cdylib");
    reveal_strlit("staticlib");
    reveal_strlit("proc-macro");
    reveal_strlit("test");
    reveal_strlit("_dylib");
    reveal_strlit("_shared");
    reveal_strlit("_static");
    lemma_type_not_test(a);
    lemma_type_not_test(b);
    let n = c.name@;
    let l = "lib"@ + n;
    assert(l.len() == n.len() + 3);
    let shared = l + "_shared"@;
    let stat = l + "_static"@;
    assert(shared[n.len() as int + 5] == 'h');
    assert(stat[n.len() as int + 5] == 't');
    assert((l + "_dylib"@).len() == n.len() + 9);
    assert(shared.len() == n.len() + 10);
    assert(stat.len() == n.len() + 10);
}

} // verus!
