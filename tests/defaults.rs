use cargo2soong::bp::{values_equal, BpModule, BpValue};
use cargo2soong::package::maybe_add_defaults;

fn module(name: &str, src: &str) -> BpModule {
    let mut m = BpModule::new("rust_test".to_string());
    m.props.set("name", BpValue::Str(name.to_string()));
    m.props.set("crate_name", BpValue::Str("foo".to_string()));
    m.props.set("edition", BpValue::Str("2021".to_string()));
    m.props.set("srcs", BpValue::List(vec![BpValue::Str(src.to_string())]));
    m
}

fn text(m: &BpModule) -> String {
    let mut s = String::new();
    m.write(&mut s);
    s
}

#[test]
fn shared_properties_move_to_defaults() {
    let mut ms = vec![module("a", "tests/a.rs"), module("b", "tests/b.rs")];
    maybe_add_defaults("foo_test_defaults".to_string(), &mut ms);
    assert_eq!(ms.len(), 3);
    assert_eq!(
        text(&ms[0]),
        "rust_test {\nname: \"a\",\ndefaults: [\"foo_test_defaults\"],\nsrcs: [\"tests/a.rs\"],\n}\n"
    );
    assert_eq!(
        text(&ms[2]),
        "rust_defaults {\nname: \"foo_test_defaults\",\ncrate_name: \"foo\",\nedition: \"2021\",\n}\n"
    );
}

#[test]
fn no_defaults_for_a_single_module() {
    let mut ms = vec![module("a", "tests/a.rs")];
    maybe_add_defaults("d".to_string(), &mut ms);
    assert_eq!(ms.len(), 1);
    assert!(!text(&ms[0]).contains("defaults"));
}

#[test]
fn no_defaults_when_one_is_set() {
    let mut a = module("a", "x.rs");
    a.props.set("defaults", BpValue::List(vec![BpValue::Str("g".to_string())]));
    let mut ms = vec![a, module("b", "x.rs")];
    maybe_add_defaults("d".to_string(), &mut ms);
    assert_eq!(ms.len(), 2);
}

#[test]
fn no_defaults_without_shared_values() {
    let mut a = module("a", "x.rs");
    a.props.remove("crate_name");
    a.props.remove("edition");
    a.props.set("srcs", BpValue::List(vec![]));
    let mut ms = vec![a, module("b", "x.rs")];
    maybe_add_defaults("d".to_string(), &mut ms);
    assert_eq!(ms.len(), 2);
    assert!(!text(&ms[1]).contains("defaults"));
}

#[test]
fn value_equality() {
    let a = BpValue::List(vec![BpValue::Str("x".to_string()), BpValue::Bool(true)]);
    let b = BpValue::List(vec![BpValue::Str("x".to_string()), BpValue::Bool(true)]);
    let c = BpValue::List(vec![BpValue::Str("x".to_string())]);
    assert!(values_equal(&a, &b));
    assert!(!values_equal(&a, &c));
    assert!(!values_equal(&BpValue::Bool(true), &BpValue::Str("true".to_string())));
    let mut p = cargo2soong::bp::BpProperties::new();
    p.set("k", BpValue::Bool(true));
    let mut q = cargo2soong::bp::BpProperties::new();
    q.set("k", BpValue::Bool(true));
    assert!(values_equal(&BpValue::Object(p), &BpValue::Object(q)));
}

#[test]
fn removing_a_property() {
    let mut m = module("a", "x.rs");
    assert!(matches!(m.props.remove("edition"), Some(BpValue::Str(s)) if s == "2021"));
    assert!(m.props.remove("edition").is_none());
    assert!(!text(&m).contains("edition"));
}

#[test]
fn nested_object_properties() {
    let mut m = module("a", "x.rs");
    m.props.object("test_options").set("unit_test", BpValue::Bool(true));
    m.props.object("test_options").set("extra", BpValue::Bool(false));
    assert!(text(&m).contains("test_options: {\nextra: false,\nunit_test: true,\n},\n"));
}
