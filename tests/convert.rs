use cargo2soong::bp::{BpModule, BpProperties, BpValue};
use cargo2soong::config::{PackageVariantConfig, VariantConfig};
use cargo2soong::crates::{parent_dir, relative_path, Crate, Edition, PackageInfo};
use cargo2soong::decode::{decode_invocation, DecodeError};
use cargo2soong::package::{copy_out_module, out_package, render_package};
use cargo2soong::synth::SynthError;

fn package(name: &str, version: &str) -> PackageInfo {
    PackageInfo { name: name.to_string(), version: version.to_string(), edition: Edition::E2021 }
}

fn crate_of(rustc: &str, dir: &str, name: &str) -> Crate {
    let inv = decode_invocation(rustc).unwrap();
    Crate::from_invocation(inv, dir, package(name, "0.1.0")).unwrap()
}

fn module_text(m: &BpModule) -> String {
    let mut s = String::new();
    m.write(&mut s);
    s
}

fn modules_of(c: &Crate, cfg: &VariantConfig, pc: &PackageVariantConfig) -> Vec<BpModule> {
    c.to_bp_modules(cfg, pc, &Vec::new(), &None).unwrap()
}

#[test]
fn simple_library() {
    let c = crate_of(
        "--crate-name foo --edition=2021 --crate-type lib --cfg feature=\"bar\" src/lib.rs",
        "",
        "foo",
    );
    assert_eq!(c.main_src, "src/lib.rs");
    let ms = modules_of(&c, &VariantConfig::default(), &PackageVariantConfig::default());
    assert_eq!(ms.len(), 1);
    assert_eq!(ms[0].module_type, "rust_library");
    assert_eq!(
        module_text(&ms[0]),
        "rust_library {\nname: \"libfoo\",\nhost_supported: true,\ncrate_name: \"foo\",\n\
         cargo_env_compat: true,\ncargo_pkg_version: \"0.1.0\",\nsrcs: [\"src/lib.rs\"],\n\
         edition: \"2021\",\nfeatures: [\"bar\"],\n\
         apex_available: [\"//apex_available:platform\", \"//apex_available:anyapex\"],\n}\n"
    );
}

#[test]
fn binary_and_test_in_one_package() {
    let bin = crate_of("--crate-name foo --crate-type bin src/main.rs", "", "foo");
    let test = crate_of("--crate-name foo --test src/main.rs", "", "foo");
    let cfg = VariantConfig::default();
    let pc = PackageVariantConfig::default();
    let mut modules = modules_of(&test, &cfg, &pc);
    modules.extend(modules_of(&bin, &cfg, &pc));
    assert_eq!(modules.len(), 2);
    let text = render_package(None, modules, None);
    let b = text.find("rust_binary {\nname: \"foo\",").unwrap();
    let t = text.find("rust_test {\nname: \"foo_test_src_main\",").unwrap();
    assert!(b < t);
    assert!(text.contains("test_suites: [\"general-tests\"],\nauto_gen_config: true,\ntest_options: {\nunit_test: true,\n},"));
}

#[test]
fn dependency_rewriting() {
    let c = crate_of(
        "--crate-name foo --crate-type lib src/lib.rs --extern serde=/some/deps/libserde-deadbeef.rlib --extern proc_macro",
        "",
        "foo",
    );
    let mut cfg = VariantConfig::default();
    cfg.module_name_overrides.push(("libserde".to_string(), "libserde_renamed".to_string()));
    let pc = PackageVariantConfig::default();
    let text = module_text(&modules_of(&c, &cfg, &pc)[0]);
    assert!(text.contains("rustlibs: [\"libserde_renamed\"],\n"));

    let mut blocking = PackageVariantConfig::default();
    blocking.dep_blocklist.push("libserde_renamed".to_string());
    let text = module_text(&modules_of(&c, &cfg, &blocking)[0]);
    assert!(!text.contains("libserde"));
}

#[test]
fn dependencies_sorted_and_split() {
    let c = crate_of(
        "--crate-name foo --crate-type lib src/lib.rs --extern zed=d/libzed-01.rmeta \
         --extern alpha=d/libalpha-ff.rlib --extern derive=d/libmy_derive-0a.so \
         -l static=z -l dylib=m -l c",
        "",
        "foo",
    );
    let text = module_text(&modules_of(&c, &VariantConfig::default(), &PackageVariantConfig::default())[0]);
    assert!(text.contains("rustlibs: [\"libalpha\", \"libzed\"],\n"));
    assert!(text.contains("proc_macros: [\"libmy_derive\"],\n"));
    assert!(text.contains("static_libs: [\"libz\"],\n"));
    assert!(text.contains("shared_libs: [\"libc\", \"libm\"],\n"));
}

#[test]
fn bad_extern_file_is_an_error() {
    let c = crate_of("--crate-name foo --crate-type lib src/lib.rs --extern x=d/x.rlib", "", "foo");
    let r = c.to_bp_modules(&VariantConfig::default(), &PackageVariantConfig::default(), &Vec::new(), &None);
    assert!(matches!(r, Err(SynthError::BadExternFile(_, _))));
    let c = crate_of("--crate-name foo --crate-type lib src/lib.rs --extern x", "", "foo");
    let r = c.to_bp_modules(&VariantConfig::default(), &PackageVariantConfig::default(), &Vec::new(), &None);
    assert!(matches!(r, Err(SynthError::MissingExternFile(_))));
}

#[test]
fn codegen_filtering() {
    let inv = decode_invocation(
        "--crate-name foo --crate-type lib -C opt-level=3 -C codegen-units=16 -C prefer-dynamic src/lib.rs",
    )
    .unwrap();
    assert_eq!(inv.codegens, vec!["opt-level=3".to_string()]);
    let c = Crate::from_invocation(inv, "", package("foo", "1.0.0")).unwrap();
    let text = module_text(&modules_of(&c, &VariantConfig::default(), &PackageVariantConfig::default())[0]);
    assert!(text.contains("flags: [\"opt-level=3\"],\n"));
}

#[test]
fn lib_and_rlib_rejected() {
    let r = decode_invocation("--crate-name foo --crate-type lib --crate-type rlib src/lib.rs");
    assert!(matches!(r, Err(DecodeError::LibAndRlib)));
}

#[test]
fn type_and_test_rejected() {
    let r = decode_invocation("--crate-name foo --crate-type bin --test src/main.rs");
    assert!(matches!(r, Err(DecodeError::TypeAndTest)));
    let r = decode_invocation("--crate-name foo src/main.rs");
    assert!(matches!(r, Err(DecodeError::TypeAndTest)));
}

#[test]
fn decode_errors() {
    assert!(matches!(decode_invocation("--crate-type lib src/lib.rs"), Err(DecodeError::MissingCrateName)));
    assert!(matches!(decode_invocation("--crate-name foo --crate-type lib"), Err(DecodeError::MissingMainSource)));
    assert!(matches!(decode_invocation("--crate-name foo --crate-type lib src/lib.rs --bogus"), Err(DecodeError::UnsupportedArgument(a)) if a == "--bogus"));
    assert!(matches!(decode_invocation("--crate-name foo src/lib.rs --crate-type"), Err(DecodeError::MissingValue(a)) if a == "--crate-type"));
    assert!(matches!(decode_invocation("--crate-name foo --cfg \" src/lib.rs"), Err(DecodeError::QuotedWhitespace)));
    assert!(matches!(decode_invocation("--crate-name foo --crate-type exe src/lib.rs"), Err(DecodeError::UnknownCrateType)));
}

#[test]
fn decode_fields() {
    let inv = decode_invocation(
        "--crate-name 'foo' --edition=2018 --crate-type lib --crate-type staticlib \
         --cfg feature=\"a\" --cfg feature=\"a\" --cfg 'unix' --target x86_64-unknown-linux-gnu \
         -Cdebuginfo=2 -Clto --cap-lints allow -L dependency=deps --emit=dep-info,link \
         --out-dir out --color never --error-format=json --json=artifacts -W unused -D warnings \
         src/lib.rs",
    )
    .unwrap();
    assert_eq!(inv.name, "foo");
    assert_eq!(inv.types, vec!["lib".to_string(), "staticlib".to_string()]);
    assert_eq!(inv.features, vec!["a".to_string()]);
    assert_eq!(inv.cfgs, vec!["unix".to_string()]);
    assert_eq!(inv.target, Some("x86_64-unknown-linux-gnu".to_string()));
    assert_eq!(inv.codegens, vec!["lto".to_string()]);
    assert_eq!(inv.cap_lints, "allow");
    assert_eq!(inv.emit_list, "dep-info,link");
    assert_eq!(inv.src, Some("src/lib.rs".to_string()));
    assert!(!inv.test);
}

#[test]
fn crate_type_mapping() {
    let c = crate_of("--crate-name foo --crate-type dylib --crate-type cdylib --crate-type staticlib --crate-type proc-macro src/lib.rs", "", "foo");
    let mut pc = PackageVariantConfig::default();
    pc.device_supported = false;
    pc.force_rlib = true;
    let ms = modules_of(&c, &VariantConfig::default(), &pc);
    let types: Vec<&str> = ms.iter().map(|m| m.module_type.as_str()).collect();
    assert_eq!(types, vec!["rust_library_host_dylib", "rust_ffi_host_shared", "rust_ffi_host_static", "rust_proc_macro"]);
    let t = module_text(&ms[0]);
    assert!(t.contains("name: \"libfoo_dylib\",\nstem: \"libfoo\",\n"));
    assert!(!t.contains("host_supported"));
    let c = crate_of("--crate-name foo --crate-type rlib src/lib.rs", "", "foo");
    let ms = modules_of(&c, &VariantConfig::default(), &pc);
    assert_eq!(ms[0].module_type, "rust_library_rlib_host");
}

#[test]
fn renamed_and_blocked_modules() {
    let c = crate_of("--crate-name foo --crate-type lib --crate-type bin src/lib.rs", "", "foo");
    let mut cfg = VariantConfig::default();
    cfg.module_name_overrides.push(("libfoo".to_string(), "libbar".to_string()));
    cfg.module_blocklist.push("foo".to_string());
    cfg.global_defaults = Some("my_defaults".to_string());
    let ms = modules_of(&c, &cfg, &PackageVariantConfig::default());
    assert_eq!(ms.len(), 1);
    let t = module_text(&ms[0]);
    assert!(t.starts_with("rust_library {\nname: \"libbar\",\ndefaults: [\"my_defaults\"],\nstem: \"libfoo\",\n"));
}

#[test]
fn build_scripts_produce_no_modules() {
    let c = crate_of("--crate-name build_script_build --crate-type bin build.rs", "", "foo");
    assert!(!c.is_included());
    let ms = modules_of(&c, &VariantConfig::default(), &PackageVariantConfig::default());
    assert!(ms.is_empty());
}

#[test]
fn license_preservation() {
    let existing = "// Copyright (C) 2024 The Project Authors\n// Licensed under the Apache License.\n\nrust_library {\n    name: \"libold\",\n}\n";
    let c = crate_of("--crate-name foo --crate-type lib src/lib.rs", "", "foo");
    let ms = modules_of(&c, &VariantConfig::default(), &PackageVariantConfig::default());
    let text = render_package(Some(existing), ms, None);
    assert!(text.contains("// Copyright (C) 2024 The Project Authors\n// Licensed under the Apache License.\nrust_library {\nname: \"libfoo\","));
    assert!(!text.contains("libold"));
    let again = render_package(Some(text.as_str()), Vec::new(), None);
    assert_eq!(again.matches("Copyright").count(), 1);
    assert_eq!(again.matches("Do not modify").count(), 1);
}

#[test]
fn missing_build_file_gets_placeholder() {
    let text = render_package(None, Vec::new(), Some("// extra"));
    assert!(text.ends_with("\n// Please add a license.\n// extra\n"));
}

#[test]
fn rendering_is_deterministic() {
    let c = crate_of("--crate-name foo --crate-type lib --crate-type bin src/lib.rs", "", "foo");
    let a = render_package(None, modules_of(&c, &VariantConfig::default(), &PackageVariantConfig::default()), None);
    let b = render_package(None, modules_of(&c, &VariantConfig::default(), &PackageVariantConfig::default()), None);
    assert_eq!(a, b);
}

#[test]
fn copy_out() {
    let path = "target.tmp/x86_64-unknown-linux-gnu/debug/build/foo-0123abcd/out/gen.rs";
    assert_eq!(out_package(path), Some("foo".to_string()));
    let (rule, extra) = copy_out_module("foo", &vec!["gen.rs".to_string()]);
    assert_eq!(extra, ":copy_foo_build_out");
    assert_eq!(
        module_text(&rule),
        "genrule {\nname: \"copy_foo_build_out\",\nsrcs: [\"out/*\"],\ncmd: \"cp $(in) $(genDir)\",\nout: [\"gen.rs\"],\n}\n"
    );
    let c = crate_of("--crate-name foo --crate-type lib src/lib.rs", "", "foo");
    let ms = c
        .to_bp_modules(&VariantConfig::default(), &PackageVariantConfig::default(), &vec![extra], &None)
        .unwrap();
    assert!(module_text(&ms[0]).contains("srcs: [\"src/lib.rs\", \":copy_foo_build_out\"],\n"));
}

#[test]
fn property_order() {
    let mut p = BpProperties::new();
    p.set("zeta", BpValue::Bool(false));
    p.set("apex_available", BpValue::List(vec![]));
    p.set("alpha", BpValue::Str("a".to_string()));
    p.set("name", BpValue::Str("n".to_string()));
    p.set("srcs", BpValue::List(vec![BpValue::Str("x".to_string())]));
    p.set("name", BpValue::Str("m".to_string()));
    let mut m = BpModule::new("rust_binary".to_string());
    m.props = p;
    m.props.raw_block = Some("extra: 1".to_string());
    assert_eq!(
        module_text(&m),
        "rust_binary {\nname: \"m\",\nsrcs: [\"x\"],\napex_available: [],\nalpha: \"a\",\nzeta: false,\nextra: 1,\n}\n"
    );
    assert_eq!(m.props.get_string("name"), "m");
}

#[test]
fn package_directory_search() {
    assert_eq!(parent_dir("src/lib.rs"), Some("src".to_string()));
    assert_eq!(parent_dir("src"), Some("".to_string()));
    assert_eq!(parent_dir(""), None);
    assert_eq!(parent_dir("/a"), Some("/".to_string()));
    assert_eq!(parent_dir("/"), None);
    assert_eq!(relative_path("a/b/src/lib.rs", "a/b"), Some("src/lib.rs".to_string()));
    assert_eq!(relative_path("a/bc/lib.rs", "a/b"), None);
    assert_eq!(relative_path("/x/lib.rs", "/"), Some("x/lib.rs".to_string()));
    let inv = decode_invocation("--crate-name foo --crate-type lib a/src/lib.rs").unwrap();
    assert!(matches!(Crate::from_invocation(inv, "b", package("foo", "1")), Err(DecodeError::NoManifest(_))));
}

#[test]
fn dependency_lists_are_processed() {
    let c = crate_of(
        "--crate-name foo --crate-type lib src/lib.rs --extern b=d/libb-1.rlib --extern a=d/liba-2.rlib \
         --extern c=d/libc-3.rlib --extern d=d/libd-4.rlib",
        "",
        "foo",
    );
    let mut cfg = VariantConfig::default();
    cfg.module_name_overrides.push(("libd".to_string(), "libaa".to_string()));
    let mut pc = PackageVariantConfig::default();
    pc.dep_blocklist.push("libc".to_string());
    let text = module_text(&modules_of(&c, &cfg, &pc)[0]);
    assert!(text.contains("rustlibs: [\"liba\", \"libaa\", \"libb\"],\n"));
}

#[test]
fn decoded_crates_are_well_formed() {
    let c = crate_of("--crate-name foo --test tests/it.rs", "", "foo");
    assert!(c.test && c.types.is_empty());
    assert!(!c.name.is_empty() && !c.main_src.is_empty());
    let ms = modules_of(&c, &VariantConfig::default(), &PackageVariantConfig::default());
    assert_eq!(ms[0].module_type, "rust_test");
    assert!(module_text(&ms[0]).contains("name: \"foo_test_tests_it\","));
}

#[test]
fn edition_text() {
    assert_eq!(Edition::E2015.to_text(), "2015");
    assert_eq!(Edition::E2024.to_text(), "2024");
}
